use astesiabot_rust::outer_source::names::{CharEntry, StrMap};
use astesiabot_rust::outer_source::operator_names::OperatorNames;
use astesiabot_rust::outer_source::operator_combat::{
    CombatCharRow, CombatEquipRow, CombatFields, CombatPatchRow, CombatPatchTables, CombatTables,
    OperatorCombat,
};
use astesiabot_rust::outer_source::operator_data::{
    has_cn_only_ueq, has_unique_eq, operator_shape, stars_of, CostCharRow, CostEntry, CostEquipRow,
    CostFields, CostPatchRow, CostPatchTables, CostTables, OperatorData, PatchInfo, Rarity, RawSkill,
};

fn s(x: &str) -> String {
    x.to_string()
}

fn cost(id: &str, count: f64) -> Vec<CostEntry<f64>> {
    vec![CostEntry { id: s(id), count }]
}

fn fields(name: Option<&str>, profession: &str, rarity: Rarity, skills: &[&str]) -> CostFields<f64> {
    CostFields {
        name: name.map(s),
        profession: Some(s(profession)),
        rarity,
        phases: vec![cost("30012", 3.0), cost("30013", 5.0)],
        skills: skills.iter().map(|id| RawSkill { skill_id: s(id), masteries: vec![cost("3303", 2.0)] }).collect(),
        all_skill_lvlup: vec![cost("3301", 4.0)],
    }
}

fn cost_tables() -> CostTables<f64> {
    let chars = vec![
        CostCharRow {
            key: s("char_002_amiya"),
            not_obtainable: false,
            cn: fields(Some("阿米娅"), "CASTER", Rarity::Tier(s("TIER_5")), &["skchr_amiya_1"]),
            jp: Some(fields(Some("アーミヤ"), "CASTER", Rarity::Number(Some(4)), &["skchr_amiya_1", "skchr_amiya_2"])),
        },
        CostCharRow {
            key: s("char_999_new"),
            not_obtainable: false,
            cn: fields(Some("新人"), "SNIPER", Rarity::Tier(s("TIER_6")), &["skchr_new_1"]),
            jp: None,
        },
        CostCharRow {
            key: s("token_10000_drone"),
            not_obtainable: false,
            cn: fields(Some("无人机"), "TOKEN", Rarity::Tier(s("TIER_1")), &[]),
            jp: None,
        },
        CostCharRow {
            key: s("char_500_gone"),
            not_obtainable: true,
            cn: fields(Some("消失"), "TANK", Rarity::Tier(s("TIER_3")), &[]),
            jp: None,
        },
        CostCharRow {
            key: s("char_600_noname"),
            not_obtainable: false,
            cn: fields(None, "TANK", Rarity::Tier(s("TIER_3")), &[]),
            jp: None,
        },
    ];
    let patches = CostPatchTables {
        chars: vec![CostPatchRow {
            key: s("char_1001_amiya2"),
            cn: fields(None, "WARRIOR", Rarity::Tier(s("TIER_5")), &["skchr_amiya2_1"]),
            jp: Some(fields(None, "WARRIOR", Rarity::Number(Some(4)), &["skchr_amiya2_1", "skchr_amiya2_2"])),
        }],
        infos: vec![PatchInfo {
            original_id: s("char_002_amiya"),
            tmpl_ids: vec![s("char_002_amiya"), s("char_1001_amiya2")],
        }],
    };
    let equips = vec![
        CostEquipRow {
            equip_id: s("uniequip_002_amiya_y"),
            item_cost: Some(vec![cost("mod_unlock_token", 1.0)]),
            type_name2: Some(s("Y")),
            char_id: Some(s("char_002_amiya")),
            in_jp: true,
        },
        CostEquipRow {
            equip_id: s("uniequip_001_amiya"),
            item_cost: Some(vec![]),
            type_name2: None,
            char_id: Some(s("char_002_amiya")),
            in_jp: true,
        },
        CostEquipRow {
            equip_id: s("uniequip_002_amiya_x"),
            item_cost: Some(vec![cost("mod_unlock_token", 2.0)]),
            type_name2: Some(s("X")),
            char_id: Some(s("char_002_amiya")),
            in_jp: false,
        },
        CostEquipRow {
            equip_id: s("uniequip_003_amiya"),
            item_cost: None,
            type_name2: Some(s("A")),
            char_id: Some(s("char_002_amiya")),
            in_jp: true,
        },
        CostEquipRow {
            equip_id: s("uniequip_002_unknown"),
            item_cost: Some(vec![]),
            type_name2: Some(s("X")),
            char_id: Some(s("char_404_unknown")),
            in_jp: true,
        },
    ];
    CostTables { chars, patches: Some(patches), equips }
}

fn custom() -> StrMap {
    let mut m = StrMap::new();
    m.insert(s("新人"), s("ニュー"));
    m
}

#[test]
fn cost_table_keeps_obtainable_named_operators_then_variants() {
    let data = OperatorData::build(cost_tables(), &custom());
    let ids: Vec<&str> = data.operators.iter().map(|o| o.id.as_str()).collect();
    assert_eq!(ids, vec!["char_002_amiya", "char_999_new", "char_1001_amiya2"]);
    let amiya = &data.operators[0];
    assert_eq!(amiya.name, "アーミヤ");
    assert_eq!(amiya.cn_name, "阿米娅");
    assert_eq!(amiya.stars, 5);
    assert!(!amiya.cn_only && !amiya.is_patch && !amiya.is_recent);
    assert_eq!(amiya.skills.len(), 2);
    let new = &data.operators[1];
    assert_eq!(new.name, "ニュー");
    assert_eq!(new.stars, 6);
    assert!(new.cn_only && new.is_recent);
    let amiya2 = &data.operators[2];
    assert_eq!(amiya2.name, "アーミヤ(前衛)");
    assert_eq!(amiya2.cn_name, "阿米娅(前衛)");
    assert!(amiya2.is_patch && !amiya2.cn_only && !amiya2.is_recent);
    assert_eq!(amiya2.stars, 5);
}

#[test]
fn cost_modules_are_sorted_by_type() {
    let data = OperatorData::build(cost_tables(), &custom());
    let amiya = &data.operators[0];
    let types: Vec<(&str, bool)> = amiya.modules.iter().map(|m| (m.eq_type.as_str(), m.cn_only)).collect();
    assert_eq!(types, vec![("X", true), ("Y", false)]);
    assert_eq!(amiya.modules[0].phase_costs[0][0].count, 2.0);
    assert!(has_unique_eq(amiya));
    assert!(has_cn_only_ueq(amiya));
    assert!(!has_unique_eq(&data.operators[2]));
    assert!(!has_cn_only_ueq(&data.operators[2]));
}

#[test]
fn cost_names_and_lookups() {
    let data = OperatorData::build(cost_tables(), &custom());
    assert_eq!(data.to_ja("阿米娅"), "アーミヤ");
    assert_eq!(data.to_ja("新人"), "ニュー");
    assert_eq!(data.to_ja("谁"), "谁");
    assert_eq!(data.get_by_name("アーミヤ(前衛)").map(|o| o.id.as_str()), Some("char_1001_amiya2"));
    assert!(data.get_by_name("阿米娅").is_none());
    assert_eq!(data.get("char_999_new").map(|o| o.name.as_str()), Some("ニュー"));
}

#[test]
fn cost_completion_by_question() {
    let data = OperatorData::build(cost_tables(), &custom());
    assert_eq!(data.autocomplete_master_cost("アーミヤ", 5), vec![s("アーミヤ"), s("アーミヤ(前衛)")]);
    assert_eq!(data.autocomplete_master_cost("アーミヤ", 1), vec![s("アーミヤ")]);
    assert_eq!(data.autocomplete_elite_cost("アーミヤ", 5), vec![s("アーミヤ")]);
    assert_eq!(data.autocomplete_module_cost("", 5), vec![s("アーミヤ")]);
}

#[test]
fn operator_shape_counts_what_the_checks_need() {
    let data = OperatorData::build(cost_tables(), &custom());
    let shape = operator_shape(&data.operators[0]);
    assert_eq!(shape.stars, 5);
    assert_eq!(shape.skill_count, 2);
    assert_eq!(shape.phase_count, 2);
    assert_eq!(shape.module_count, 2);
    assert!(!shape.is_patch);
}

#[test]
fn rarity_is_read_in_both_forms() {
    assert_eq!(stars_of(&Rarity::Tier(s("TIER_6"))), 6);
    assert_eq!(stars_of(&Rarity::Tier(s("TIER_TIER_3"))), 3);
    assert_eq!(stars_of(&Rarity::Tier(s("TIER_+4"))), 4);
    assert_eq!(stars_of(&Rarity::Tier(s("TIER_x"))), 0);
    assert_eq!(stars_of(&Rarity::Tier(s("TIER_"))), 0);
    assert_eq!(stars_of(&Rarity::Tier(s("TIER_99999999999"))), 0);
    assert_eq!(stars_of(&Rarity::Number(Some(2))), 3);
    assert_eq!(stars_of(&Rarity::Number(None)), 0);
    assert_eq!(stars_of(&Rarity::Number(Some(u32::MAX))), 0);
    assert_eq!(stars_of(&Rarity::Other), 0);
}

#[test]
fn variant_of_unknown_original_gets_empty_name() {
    let mut tables = cost_tables();
    tables.patches.as_mut().unwrap().infos.clear();
    let data = OperatorData::build(tables, &custom());
    assert_eq!(data.operators[2].name, "(前衛)");
}

fn combat_fields(name: Option<&str>, profession: Option<&str>, position: Option<&str>, atk: f64) -> CombatFields<f64> {
    CombatFields {
        name: name.map(s),
        profession: profession.map(s),
        position: position.map(s),
        nation_id: Some(s("rhodes")),
        atk_base: atk,
        atk_potential: 27.0,
    }
}

fn combat_tables() -> CombatTables<f64> {
    let chars = vec![
        CombatCharRow {
            key: s("char_456_ash"),
            not_obtainable: false,
            cn: combat_fields(Some("灰烬"), Some("SNIPER"), Some("RANGED"), 600.0),
            jp: Some(combat_fields(Some("Ash"), Some("SNIPER"), Some("RANGED"), 624.0)),
        },
        CombatCharRow {
            key: s("char_700_nopos"),
            not_obtainable: false,
            cn: combat_fields(Some("无位"), Some("TANK"), None, 1.0),
            jp: None,
        },
    ];
    let patches = CombatPatchTables {
        chars: vec![CombatPatchRow {
            key: s("char_1001_amiya2"),
            cn: combat_fields(None, Some("WARRIOR"), Some("MELEE"), 500.0),
            jp: None,
        }],
        infos: vec![],
    };
    let equips = vec![
        CombatEquipRow {
            equip_id: s("uniequip_002_ash"),
            type_name2: Some(s("Y")),
            char_id: Some(s("char_456_ash")),
            jp_name: None,
            cn_name: Some(s("灰烬模组")),
            jp_atk: None,
            cn_atk: Some(vec![25.0, 33.0, 40.0]),
        },
        CombatEquipRow {
            equip_id: s("uniequip_003_ash"),
            type_name2: Some(s("X")),
            char_id: Some(s("char_456_ash")),
            jp_name: Some(s("Ash X")),
            cn_name: Some(s("灰烬X")),
            jp_atk: Some(vec![30.0]),
            cn_atk: Some(vec![1.0]),
        },
    ];
    CombatTables { chars, patches: Some(patches), equips }
}

#[test]
fn combat_table_needs_profession_and_position() {
    let data = OperatorCombat::build(combat_tables(), &StrMap::new());
    let ids: Vec<&str> = data.operators.iter().map(|o| o.id.as_str()).collect();
    assert_eq!(ids, vec!["char_456_ash", "char_1001_amiya2"]);
    let ash = data.get_by_name("Ash").unwrap();
    assert_eq!(ash.atk_base, 624.0);
    assert_eq!(ash.atk_potential, 27.0);
    assert_eq!(ash.nation_id, "rhodes");
    assert_eq!(data.operators[1].name, "(前衛)");
    assert_eq!(data.operators[1].position, "MELEE");
}

#[test]
fn combat_modules_prefer_japanese_names_and_values() {
    let data = OperatorCombat::build(combat_tables(), &StrMap::new());
    let ash = data.get("char_456_ash").unwrap();
    assert_eq!(ash.modules.len(), 2);
    assert_eq!(ash.modules[0].eq_type, "X");
    assert_eq!(ash.modules[0].name, "Ash X");
    assert_eq!(ash.modules[0].atk_by_level, vec![30.0]);
    assert_eq!(ash.modules[1].eq_type, "Y");
    assert_eq!(ash.modules[1].name, "灰烬模组");
    assert_eq!(ash.modules[1].atk_by_level, vec![25.0, 33.0, 40.0]);
}

#[test]
fn cost_table_names_agree_with_the_operator_name_table() {
    let tables = cost_tables();
    let cn: Vec<CharEntry> = tables
        .chars
        .iter()
        .map(|r| CharEntry { key: r.key.clone(), not_obtainable: r.not_obtainable, name: r.cn.name.clone() })
        .collect();
    let mut jp = StrMap::new();
    for r in &tables.chars {
        if let Some(name) = r.jp.as_ref().and_then(|j| j.name.clone()) {
            jp.insert(r.key.clone(), name);
        }
    }
    let names = OperatorNames::from_tables(&cn, &jp, &custom());
    let data = OperatorData::build(tables, &custom());
    for cn_name in ["阿米娅", "新人", "无人机", "消失", "谁"] {
        assert_eq!(data.to_ja(cn_name), names.to_ja(cn_name));
    }
}
