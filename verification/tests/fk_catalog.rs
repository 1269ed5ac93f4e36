use astesiabot_rust::fk_kill_calc::catalog::validate_overrides;
use astesiabot_rust::fk_kill_calc::catalog_build::{build_catalog, SkillDefaults};
use astesiabot_rust::fk_kill_calc::dto::{DamageType, ValueSource};
use astesiabot_rust::fk_kill_calc::overrides::{OverrideVariant, Overrides};
use astesiabot_rust::outer_source::fk_data::{FkSheetData, FkSheetRow};
use astesiabot_rust::outer_source::names::StrMap;
use astesiabot_rust::outer_source::operator_combat::{OperatorCombat, RawModuleCombat, RawOperatorCombat};
use astesiabot_rust::outer_source::operator_data::{
    CostCharRow, CostFields, CostTables, OperatorData, Rarity, RawSkill,
};
use astesiabot_rust::outer_source::skill_data::{SkillData, SkillItem};

fn s(x: &str) -> String {
    x.to_string()
}

fn row(skill: &str, fk_num: &str) -> FkSheetRow {
    FkSheetRow {
        skill_num: s(skill),
        fk_num: s(fk_num),
        fk_err: s(""),
        detail: s("detail"),
        last_edited: s("2024-01-01"),
        state: s(""),
    }
}

fn sheet() -> FkSheetData {
    let mut by_operator = indexmap::IndexMap::new();
    by_operator.insert(s("アーミヤ（前衛）"), vec![row("1", "2"), row("2", "5")]);
    by_operator.insert(s("召喚物"), vec![row("1", "1")]);
    by_operator.insert(s("Ash"), vec![row("3", "4")]);
    FkSheetData { by_operator }
}

fn combat_op(id: &str, name: &str, profession: &str, position: &str, atk: f64) -> RawOperatorCombat<f64> {
    RawOperatorCombat {
        id: s(id),
        name: s(name),
        cn_name: s(name),
        profession: s(profession),
        position: s(position),
        nation_id: s(""),
        atk_base: atk,
        atk_potential: 20.0,
        modules: vec![RawModuleCombat {
            eq_id: format!("uniequip_{id}"),
            eq_type: s("X"),
            name: s("mod"),
            atk_by_level: vec![10.0, 20.0, 30.0],
        }],
    }
}

fn combat() -> OperatorCombat<f64> {
    let mut name_to_id = StrMap::new();
    name_to_id.insert(s("アーミヤ(前衛)"), s("char_1001_amiya2"));
    name_to_id.insert(s("Ash"), s("char_456_ash"));
    OperatorCombat {
        operators: vec![
            combat_op("char_1001_amiya2", "アーミヤ(前衛)", "WARRIOR", "MELEE", 500.0),
            combat_op("char_456_ash", "Ash", "SNIPER", "RANGED", 624.0),
        ],
        name_to_id,
    }
}

fn cost_row(key: &str, name: &str, skills: &[&str]) -> CostCharRow<i32> {
    CostCharRow {
        key: s(key),
        not_obtainable: false,
        cn: CostFields {
            name: Some(s(name)),
            profession: None,
            rarity: Rarity::Tier(s("TIER_6")),
            phases: vec![],
            skills: skills.iter().map(|id| RawSkill { skill_id: s(id), masteries: vec![] }).collect(),
            all_skill_lvlup: vec![],
        },
        jp: None,
    }
}

fn costs() -> OperatorData<i32> {
    let tables = CostTables {
        chars: vec![
            cost_row("char_1001_amiya2", "アーミヤ(前衛)", &["skchr_amiya2_1", "skchr_amiya2_2"]),
            cost_row("char_456_ash", "Ash", &["skchr_ash_1", "skchr_ash_2", "skchr_ash_3"]),
        ],
        patches: None,
        equips: vec![],
    };
    OperatorData::build(tables, &StrMap::new())
}

fn skills() -> SkillData {
    let mut d = SkillData::new();
    d.insert(s("skchr_amiya2_1"), SkillItem { name: s("剣術・一"), description: s("") });
    d.insert(s("skchr_ash_3"), SkillItem { name: s("戦術的制圧"), description: s("") });
    d
}

fn variant(label: &str, multiplier: f64) -> OverrideVariant<f64> {
    OverrideVariant {
        label: Some(s(label)),
        multiplier: Some(multiplier),
        self_atk_pct: None,
        hits: None,
        damage_type: None,
        note: None,
    }
}

fn overrides() -> Overrides<f64> {
    let mut last = variant("800%", 8.0);
    last.hits = Some(2);
    last.damage_type = Some(DamageType::Arts);
    last.note = Some(s("max"));
    Overrides::new(vec![(
        s("char_456_ash"),
        vec![(s("3"), vec![variant("300%", 3.0), variant("400%", 4.0), last])],
    )])
}

fn defaults() -> (Vec<(String, SkillDefaults<f64>)>, SkillDefaults<f64>) {
    let table = vec![(
        s("skchr_ash_3"),
        SkillDefaults { multiplier: 2.5, candidates: vec![(s("atk_scale"), 2.5), (s("a_scale"), 1.0)], self_atk_pct: 0.1 },
    )];
    let fallback = SkillDefaults { multiplier: 1.0, candidates: vec![], self_atk_pct: 0.0 };
    (table, fallback)
}

#[test]
fn sheet_operators_resolve_or_are_skipped() {
    let (table, fallback) = defaults();
    let built = build_catalog(&sheet(), &costs(), &combat(), &skills(), &overrides(), &table, &fallback);
    let names: Vec<(&str, &str)> =
        built.catalog.operators.iter().map(|o| (o.id.as_str(), o.name.as_str())).collect();
    assert_eq!(names, vec![("char_1001_amiya2", "アーミヤ（前衛）"), ("char_456_ash", "Ash")]);
    assert_eq!(built.skipped, vec![s("召喚物")]);
    assert!(built.catalog.buffers.is_empty());
}

#[test]
fn corrected_skill_gives_one_manual_entry_per_variant() {
    let (table, fallback) = defaults();
    let built = build_catalog(&sheet(), &costs(), &combat(), &skills(), &overrides(), &table, &fallback);
    let ash = &built.catalog.operators[1];
    assert_eq!(ash.tags, vec![s("狙撃")]);
    assert_eq!(ash.atk_base, 624.0);
    assert_eq!(ash.fk_entries.len(), 3);
    let multipliers: Vec<f64> = ash.fk_entries.iter().map(|e| e.multiplier.value).collect();
    assert_eq!(multipliers, vec![3.0, 4.0, 8.0]);
    for e in &ash.fk_entries {
        assert_eq!(e.multiplier.source, ValueSource::Manual);
        assert_eq!(e.self_atk_pct.value, 0.1);
        assert_eq!(e.self_atk_pct.source, ValueSource::Auto);
        assert_eq!(e.skill_label, "戦術的制圧");
        assert_eq!(e.fk_num, "4");
        assert_eq!(e.multiplier_candidates, vec![(s("atk_scale"), 2.5), (s("a_scale"), 1.0)]);
    }
    let last = &ash.fk_entries[2];
    assert_eq!(last.variant_label, Some(s("800%")));
    assert_eq!((last.hits.value, last.hits.source), (2, ValueSource::Manual));
    assert_eq!((last.damage_type.value, last.damage_type.source), (DamageType::Arts, ValueSource::Manual));
    assert_eq!(last.note, Some(s("max")));
    let first = &ash.fk_entries[0];
    assert_eq!((first.hits.value, first.hits.source), (1, ValueSource::Auto));
    assert_eq!((first.damage_type.value, first.damage_type.source), (DamageType::Physical, ValueSource::Auto));
}

#[test]
fn uncorrected_rows_take_game_data_values() {
    let (table, fallback) = defaults();
    let built = build_catalog(&sheet(), &costs(), &combat(), &skills(), &overrides(), &table, &fallback);
    let amiya = &built.catalog.operators[0];
    assert_eq!(amiya.tags, vec![s("近距離"), s("前衛")]);
    assert_eq!(amiya.modules.len(), 1);
    assert_eq!(amiya.modules[0].module_type, "X");
    assert_eq!(amiya.modules[0].atk_by_level, vec![10.0, 20.0, 30.0]);
    assert_eq!(amiya.fk_entries.len(), 2);
    let s1 = &amiya.fk_entries[0];
    assert_eq!(s1.skill_label, "剣術・一");
    assert_eq!(s1.variant_label, None);
    assert_eq!((s1.multiplier.value, s1.multiplier.source), (1.0, ValueSource::Auto));
    assert_eq!(s1.self_atk_pct.source, ValueSource::Auto);
    assert_eq!(s1.hits.source, ValueSource::Auto);
    assert_eq!(s1.damage_type.source, ValueSource::Auto);
    assert!(s1.multiplier_candidates.is_empty());
    let s2 = &amiya.fk_entries[1];
    assert_eq!(s2.skill_label, "2");
    assert_eq!(s2.fk_num, "5");
}

#[test]
fn override_keys_that_point_at_nothing_are_reported() {
    let mut by_operator = indexmap::IndexMap::new();
    by_operator.insert(s("アーミヤ（前衛）"), vec![row("1", "3"), row("2", "3")]);
    by_operator.insert(s("エクシア"), vec![row("3", "3")]);
    let fk = FkSheetData { by_operator };
    let mut name_to_id = StrMap::new();
    name_to_id.insert(s("アーミヤ(前衛)"), s("char_1001_amiya2"));
    name_to_id.insert(s("エクシア"), s("char_103_angel"));
    name_to_id.insert(s("アーミヤ"), s("char_002_amiya"));
    let combat = OperatorCombat {
        operators: vec![
            combat_op("char_1001_amiya2", "アーミヤ(前衛)", "WARRIOR", "MELEE", 1.0),
            combat_op("char_103_angel", "エクシア", "SNIPER", "RANGED", 1.0),
            combat_op("char_002_amiya", "アーミヤ", "CASTER", "RANGED", 1.0),
        ],
        name_to_id,
    };
    let v = || vec![variant("x", 1.0)];
    let overrides = Overrides::new(vec![
        (s("char_1001_amiya2"), vec![(s("2"), v())]),
        (s("char_103_angel"), vec![(s("1"), v()), (s("3"), v())]),
        (s("char_999_none"), vec![(s("1"), v())]),
        (s("char_002_amiya"), vec![(s("1"), v())]),
    ]);
    let problems = validate_overrides(&overrides, &fk, &combat);
    assert_eq!(
        problems,
        vec![
            s("char_103_angel/1 (skill_num'1'が'エクシア'のfk_data行に無い)"),
            s("char_999_none/1 (operator idがoperator_combatに無い)"),
            s("char_002_amiya/1 (オペレーター名'アーミヤ'がfk_dataに無い)"),
        ]
    );
}

#[test]
fn overrides_list_their_keys_and_variants() {
    let o = overrides();
    assert_eq!(o.all_keys(), vec![(s("char_456_ash"), s("3"))]);
    assert_eq!(o.variants_for("char_456_ash", "3").map(|v| v.len()), Some(3));
    assert!(o.variants_for("char_456_ash", "1").is_none());
    assert!(o.variants_for("char_000", "3").is_none());
    assert!(Overrides::<f64>::empty_for_test().all_keys().is_empty());
}
