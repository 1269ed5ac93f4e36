use astesiabot_rust::fk_kill_calc::catalog::{multiplier_keys, validate_overrides};
use astesiabot_rust::fk_kill_calc::catalog_build::{build_catalog, CatalogBuild, SkillDefaults};
use astesiabot_rust::fk_kill_calc::dto::ValueSource;
use astesiabot_rust::fk_kill_calc::overrides::{OverrideVariant, Overrides};
use astesiabot_rust::outer_source::fk_data::{FkSheetData, FkSheetRow};
use astesiabot_rust::outer_source::names::StrMap;
use astesiabot_rust::outer_source::operator_combat::{OperatorCombat, RawOperatorCombat};
use astesiabot_rust::outer_source::operator_data::{
    CostCharRow, CostFields, CostTables, OperatorData, Rarity, RawSkill,
};
use astesiabot_rust::outer_source::skill_data::{SkillData, SkillItem};

// A small data set in the shape of the game and sheet data: four operators
// of the sheet that the game data knows, one that it does not.

fn s(x: &str) -> String {
    x.to_string()
}

fn row(skill: &str) -> FkSheetRow {
    FkSheetRow {
        skill_num: s(skill),
        fk_num: s("3"),
        fk_err: s(""),
        detail: s(""),
        last_edited: s("2024-05-01"),
        state: s(""),
    }
}

fn sheet() -> FkSheetData {
    let mut by_operator = indexmap::IndexMap::new();
    by_operator.insert(s("アーミヤ（前衛）"), vec![row("1")]);
    by_operator.insert(s("Ash"), vec![row("3")]);
    by_operator.insert(s("ホルン"), vec![row("1"), row("2")]);
    by_operator.insert(s("ブレイズ"), vec![row("3")]);
    by_operator.insert(s("召喚物"), vec![row("1")]);
    FkSheetData { by_operator }
}

fn combat_op(id: &str, name: &str, profession: &str, position: &str) -> RawOperatorCombat<f64> {
    RawOperatorCombat {
        id: s(id),
        name: s(name),
        cn_name: s(name),
        profession: s(profession),
        position: s(position),
        nation_id: s(""),
        atk_base: 500.0,
        atk_potential: 0.0,
        modules: vec![],
    }
}

const OPS: [(&str, &str, &str, &str, &[&str]); 4] = [
    ("char_1001_amiya2", "アーミヤ(前衛)", "WARRIOR", "MELEE", &["skchr_amiya2_1", "skchr_amiya2_2"]),
    ("char_456_ash", "Ash", "SNIPER", "RANGED", &["skchr_ash_1", "skchr_ash_2", "skchr_ash_3"]),
    ("char_4039_horn", "ホルン", "TANK", "RANGED", &["skchr_horn_1", "skchr_horn_2", "skchr_horn_3"]),
    ("char_017_huang", "ブレイズ", "WARRIOR", "MELEE", &["skchr_huang_1", "skchr_huang_2", "skchr_huang_3"]),
];

fn combat() -> OperatorCombat<f64> {
    let mut name_to_id = StrMap::new();
    for (id, name, _, _, _) in OPS {
        name_to_id.insert(s(name), s(id));
    }
    OperatorCombat {
        operators: OPS.iter().map(|(id, name, p, pos, _)| combat_op(id, name, p, pos)).collect(),
        name_to_id,
    }
}

fn costs() -> OperatorData<i32> {
    let chars = OPS
        .iter()
        .map(|(id, name, _, _, skills)| CostCharRow {
            key: s(id),
            not_obtainable: false,
            cn: CostFields {
                name: Some(s(name)),
                profession: None,
                rarity: Rarity::Tier(s("TIER_6")),
                phases: vec![],
                skills: skills.iter().map(|k| RawSkill { skill_id: s(k), masteries: vec![] }).collect(),
                all_skill_lvlup: vec![],
            },
            jp: None,
        })
        .collect();
    OperatorData::build(CostTables { chars, patches: None, equips: vec![] }, &StrMap::new())
}

fn skills() -> SkillData {
    let mut d = SkillData::new();
    d.insert(s("skchr_ash_3"), SkillItem { name: s("戦術的制圧"), description: s("") });
    d.insert(s("skchr_huang_3"), SkillItem { name: s("チェーンソー延伸"), description: s("") });
    d
}

/// The defaults of a skill from its blackboard, as the application makes
/// them: the chosen scale key's value, the scale keys in display order, and
/// the `atk` value.
fn defaults_of(blackboard: &[(&str, f64)]) -> SkillDefaults<f64> {
    let value = |k: &str| blackboard.iter().find(|(key, _)| *key == k).map(|(_, v)| *v);
    let keys: Vec<String> = blackboard.iter().map(|(k, _)| s(k)).collect();
    let (chosen, order) = multiplier_keys(&keys);
    SkillDefaults {
        multiplier: chosen.and_then(|k| value(&k)).unwrap_or(1.0),
        candidates: order.iter().map(|k| (k.clone(), value(k).unwrap())).collect(),
        self_atk_pct: value("atk").unwrap_or(0.0),
    }
}

fn variant(label: &str, multiplier: Option<f64>, self_atk_pct: Option<f64>) -> OverrideVariant<f64> {
    OverrideVariant { label: Some(s(label)), multiplier, self_atk_pct, hits: None, damage_type: None, note: None }
}

fn overrides() -> Overrides<f64> {
    Overrides::new(vec![
        (
            s("char_456_ash"),
            vec![(
                s("3"),
                vec![
                    variant("300%", Some(3.0), None),
                    variant("400%", Some(4.0), None),
                    variant("800%", Some(8.0), None),
                ],
            )],
        ),
        (s("char_017_huang"), vec![(s("3"), vec![variant("S3", None, Some(0.772))])]),
    ])
}

fn build_from_seeds() -> CatalogBuild<f64> {
    let table = vec![
        (s("skchr_horn_1"), defaults_of(&[("atk", 0.3), ("def", 0.5)])),
        (
            s("skchr_horn_2"),
            defaults_of(&[
                ("attack@s2.magic_atk_scale", 1.6),
                ("attack@s2.interval", 2.0),
                ("attack@s2.atk_scale", 1.6),
            ]),
        ),
        (s("skchr_huang_3"), defaults_of(&[("atk", 0.2), ("damage_by_atk_scale", 4.0)])),
        (s("skchr_ash_3"), defaults_of(&[("atk_scale", 2.0)])),
    ];
    let fallback = SkillDefaults { multiplier: 1.0, candidates: vec![], self_atk_pct: 0.0 };
    build_catalog(&sheet(), &costs(), &combat(), &skills(), &overrides(), &table, &fallback)
}

#[test]
fn catalog_builds_from_seeds() {
    let result = build_from_seeds();
    assert!(!result.catalog.operators.is_empty());
    assert!(result.catalog.buffers.is_empty(), "P1のbuffersは常に空のはず");
}

#[test]
fn ash_s3_has_three_manual_variants_with_expected_multipliers() {
    let result = build_from_seeds();
    let ash = result.catalog.operators.iter().find(|op| op.name == "Ash").expect("Ashがカタログに存在すること");
    let s3_entries: Vec<_> = ash.fk_entries.iter().filter(|e| e.skill_num == "3").collect();
    assert_eq!(s3_entries.len(), 3, "AshのS3は300/400/800%の3バリアントのはず");
    let mut multipliers: Vec<f64> = s3_entries.iter().map(|e| e.multiplier.value).collect();
    multipliers.sort_by(|a, b| a.partial_cmp(b).unwrap());
    assert_eq!(multipliers, vec![3.0, 4.0, 8.0]);
    for e in &s3_entries {
        assert_eq!(e.multiplier.source, ValueSource::Manual, "overrideで指定した倍率はManualのはず");
    }
}

#[test]
fn machine_only_entry_has_auto_source() {
    let result = build_from_seeds();
    let horn = result.catalog.operators.iter().find(|op| op.name == "ホルン").expect("ホルンがカタログに存在すること");
    let s1 = horn.fk_entries.iter().find(|e| e.skill_num == "1").expect("ホルンのskill_num=1が存在すること");
    assert_eq!(s1.multiplier.source, ValueSource::Auto);
    assert_eq!(s1.self_atk_pct.source, ValueSource::Auto);
    assert_eq!(s1.hits.source, ValueSource::Auto);
    assert_eq!(s1.damage_type.source, ValueSource::Auto);
}

#[test]
fn every_override_key_points_to_existing_operator_and_skill_num() {
    let bad = validate_overrides(&overrides(), &sheet(), &combat());
    assert!(bad.is_empty(), "overrides.yamlに実データと不一致なキーがある:\n{}", bad.join("\n"));
}

#[test]
fn fullwidth_paren_operator_name_resolves() {
    let result = build_from_seeds();
    let found = result.catalog.operators.iter().any(|op| op.name.contains("アーミヤ"));
    assert!(found, "fk_dataの「アーミヤ（前衛）」(全角括弧)がoperator_combatの半角括弧表記へ解決できること。skipped={:?}", result.skipped);
    assert!(
        !result.skipped.iter().any(|n| n.contains("アーミヤ")),
        "アーミヤ(前衛)はもうskippedに残らないはず: {:?}",
        result.skipped
    );
}

#[test]
fn blaze_s3_multiplier_is_now_auto_via_suffix_rule() {
    let result = build_from_seeds();
    let blaze = result.catalog.operators.iter().find(|op| op.name == "ブレイズ").expect("ブレイズがカタログに存在すること");
    let s3 = blaze.fk_entries.iter().find(|e| e.skill_num == "3").expect("ブレイズのS3が存在すること");
    assert_eq!(s3.multiplier.value, 4.0);
    assert_eq!(s3.multiplier.source, ValueSource::Auto, "multiplierのoverrideは撤去済みのはず");
    assert_eq!(s3.self_atk_pct.value, 0.772);
    assert_eq!(s3.self_atk_pct.source, ValueSource::Manual);
}

#[test]
fn horn_s2_multiplier_candidates_are_deterministically_ordered() {
    let result = build_from_seeds();
    let horn = result.catalog.operators.iter().find(|op| op.name == "ホルン").expect("ホルンがカタログに存在すること");
    let s2 = horn.fk_entries.iter().find(|e| e.skill_num == "2").expect("ホルンのskill_num=2が存在すること");
    let keys: Vec<&str> = s2.multiplier_candidates.iter().map(|(k, _)| k.as_str()).collect();
    assert_eq!(keys, vec!["attack@s2.atk_scale", "attack@s2.magic_atk_scale"]);
}

#[test]
fn coverage_report() {
    let result = build_from_seeds();
    let resolved = result.catalog.operators.len();
    let skipped = result.skipped.len();
    println!("fk_kill_calc coverage: resolved={resolved} skipped={skipped} skipped_names={:?}", result.skipped);
    assert!(resolved > 0);
    assert_eq!(resolved, 4);
    assert_eq!(result.skipped, vec![s("召喚物")]);
}

#[test]
fn overrides_yaml_parses_and_is_not_empty() {
    let overrides = overrides();
    assert!(!overrides.all_keys().is_empty());
    let ash_variants = overrides.variants_for("char_456_ash", "3").expect("Ashの上書きがあるはず");
    assert_eq!(ash_variants.len(), 3);
}
