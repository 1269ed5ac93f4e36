use astesiabot_rust::fk_data_search::dto::FkSearchResult;
use astesiabot_rust::fk_data_search::search::{autocomplete, resolve};
use astesiabot_rust::fk_data_search::view::FkDataView;
use std::sync::Arc;
use astesiabot_rust::outer_source::fk_data::{FkSheetData, FkSheetRow};
use astesiabot_rust::outer_source::names::StrMap;
use astesiabot_rust::outer_source::operator_data::{
    CostCharRow, CostFields, CostTables, OperatorData, Rarity, RawSkill,
};
use astesiabot_rust::outer_source::skill_data::{SkillData, SkillItem};
use indexmap::IndexMap;

fn row(skill_num: &str, fk_num: &str) -> FkSheetRow {
    FkSheetRow {
        skill_num: skill_num.to_string(),
        fk_num: fk_num.to_string(),
        fk_err: "誤差".to_string(),
        detail: "詳細".to_string(),
        last_edited: "2024-01-01".to_string(),
        state: "済".to_string(),
    }
}

fn fk_data_with(operator: &str, rows: Vec<FkSheetRow>) -> FkSheetData {
    let mut by_operator = IndexMap::new();
    by_operator.insert(operator.to_string(), rows);
    FkSheetData { by_operator }
}

/// Cost data that knows one operator named `name` with the skills `ids`.
fn operator_data_with(name: &str, ids: &[&str]) -> OperatorData<f64> {
    let row = CostCharRow {
        key: "char_900_test".to_string(),
        not_obtainable: false,
        cn: CostFields {
            name: Some(name.to_string()),
            profession: None,
            rarity: Rarity::Tier("TIER_6".to_string()),
            phases: vec![],
            skills: ids.iter().map(|id| RawSkill { skill_id: id.to_string(), masteries: vec![] }).collect(),
            all_skill_lvlup: vec![],
        },
        jp: None,
    };
    OperatorData::build(CostTables { chars: vec![row], patches: None, equips: vec![] }, &StrMap::new())
}

#[test]
fn operator_not_found() {
    let fk_data = fk_data_with("アステシア", vec![row("1", "3")]);
    let operator_data = OperatorData::<f64>::empty_for_test();
    let skill_data = SkillData::empty_for_test();
    let result = resolve(&fk_data, &operator_data, &skill_data, "存在しない子", "1");
    assert!(matches!(result, FkSearchResult::OperatorNotFound));
}

#[test]
fn single_skill_defaults_when_skill_num_empty() {
    let fk_data = fk_data_with("アステシア", vec![row("1", "3")]);
    let operator_data = OperatorData::<f64>::empty_for_test();
    let skill_data = SkillData::empty_for_test();
    let result = resolve(&fk_data, &operator_data, &skill_data, "アステシア", "");
    match result {
        FkSearchResult::Found(view) => {
            assert_eq!(view.fk_num, "3");
            assert_eq!(view.requested_skill_num, "");
        }
        _ => panic!("expected Found"),
    }
}

#[test]
fn multiple_skills_need_selection_when_skill_num_empty() {
    let fk_data = fk_data_with("アステシア", vec![row("1", "3"), row("2", "5")]);
    let operator_data = OperatorData::<f64>::empty_for_test();
    let skill_data = SkillData::empty_for_test();
    let result = resolve(&fk_data, &operator_data, &skill_data, "アステシア", "");
    match result {
        FkSearchResult::NeedsSkillSelection { choices } => {
            assert_eq!(choices.len(), 2);
            assert_eq!(choices.get("1").unwrap(), "1");
        }
        _ => panic!("expected NeedsSkillSelection"),
    }
}

#[test]
fn unknown_skill_num_returns_candidates() {
    let fk_data = fk_data_with("アステシア", vec![row("1", "3"), row("2", "5")]);
    let operator_data = OperatorData::<f64>::empty_for_test();
    let skill_data = SkillData::empty_for_test();
    let result = resolve(&fk_data, &operator_data, &skill_data, "アステシア", "3");
    match result {
        FkSearchResult::SkillNotFound { candidates } => {
            assert_eq!(candidates.len(), 2);
        }
        _ => panic!("expected SkillNotFound"),
    }
}

#[test]
fn autocomplete_filters_by_substring() {
    let fk_data = fk_data_with("アステシア", vec![row("1", "3")]);
    let hits = autocomplete(&fk_data, "テシ", 25);
    assert_eq!(hits, vec!["アステシア".to_string()]);
}

fn skills() -> SkillData {
    let mut d = SkillData::empty_for_test();
    d.insert(
        "skchr_a_1".to_string(),
        SkillItem { name: "星の導き".to_string(), description: "説明".to_string() },
    );
    d.insert(
        "skchr_a_2".to_string(),
        SkillItem { name: "天球の調べ".to_string(), description: String::new() },
    );
    d
}

#[test]
fn skill_names_resolve_by_number() {
    let fk_data = fk_data_with("アステシア", vec![row("1", "3"), row("2", "5"), row("素質1", "7")]);
    let ops = operator_data_with("アステシア", &["skchr_a_1", "skchr_a_2"]);
    match resolve(&fk_data, &ops, &skills(), "アステシア", "") {
        FkSearchResult::NeedsSkillSelection { choices } => {
            let got: Vec<(String, String)> =
                choices.iter().map(|(k, v)| (k.clone(), v.clone())).collect();
            assert_eq!(
                got,
                vec![
                    ("1".to_string(), "星の導き".to_string()),
                    ("2".to_string(), "天球の調べ".to_string()),
                    ("素質1".to_string(), "素質1".to_string()),
                ]
            );
        }
        _ => panic!("expected NeedsSkillSelection"),
    }
    match resolve(&fk_data, &ops, &skills(), "アステシア", "2") {
        FkSearchResult::Found(view) => {
            assert_eq!(view.skill_name, "天球の調べ");
            assert_eq!(view.fk_num, "5");
            assert_eq!(view.requested_skill_num, "2");
        }
        _ => panic!("expected Found"),
    }
}

#[test]
fn padded_skill_number_matches_nothing() {
    let fk_data = fk_data_with("アステシア", vec![row("1", "3"), row("2", "5")]);
    let ops = operator_data_with("アステシア", &["skchr_a_1"]);
    match resolve(&fk_data, &ops, &skills(), "アステシア", " 1") {
        FkSearchResult::SkillNotFound { candidates } => {
            assert_eq!(candidates[0].skill_num, "1");
            assert_eq!(candidates[0].skill_name, "星の導き");
            assert_eq!(candidates[1].skill_name, "");
        }
        _ => panic!("expected SkillNotFound"),
    }
}

#[test]
fn autocomplete_keeps_sheet_order_and_limit() {
    let mut by_operator = IndexMap::new();
    by_operator.insert("アーミヤ".to_string(), vec![row("1", "1")]);
    by_operator.insert("ケルシー".to_string(), vec![row("1", "1")]);
    by_operator.insert("アーミヤ(前衛)".to_string(), vec![row("1", "1")]);
    by_operator.insert("アーミヤ(医療)".to_string(), vec![row("1", "1")]);
    let fk_data = FkSheetData { by_operator };
    assert_eq!(
        autocomplete(&fk_data, "アーミヤ", 2),
        vec!["アーミヤ".to_string(), "アーミヤ(前衛)".to_string()]
    );
    assert_eq!(autocomplete(&fk_data, "アーミヤ", 0), Vec::<String>::new());
}

#[test]
fn missing_skill_id_reads_missing() {
    let d = skills();
    assert_eq!(d.get_str("skchr_a_1"), "星の導き");
    assert_eq!(d.get_str("nothing"), "Missing");
    assert_eq!(d.get_description("skchr_a_1"), "説明");
    assert_eq!(d.get_description("nothing"), "");
}

#[test]
fn operator_unknown_to_the_cost_data_has_no_skill_names() {
    let fk_data = fk_data_with("アステシア", vec![row("1", "3"), row("2", "5")]);
    let ops = operator_data_with("別の子", &["skchr_a_1"]);
    match resolve(&fk_data, &ops, &skills(), "アステシア", "1") {
        FkSearchResult::Found(view) => {
            assert_eq!(view.skill_name, "");
            assert_eq!(view.fk_num, "3");
        }
        _ => panic!("expected Found"),
    }
}

#[test]
fn view_searches_its_snapshot() {
    let view = FkDataView {
        fk_data: Arc::new(fk_data_with("アステシア", vec![row("1", "3"), row("2", "5")])),
        operator_data: Arc::new(operator_data_with("アステシア", &["skchr_a_1", "skchr_a_2"])),
        skill_data: Arc::new(skills()),
    };
    match view.search("アステシア", "2") {
        FkSearchResult::Found(v) => {
            assert_eq!(v.skill_name, "天球の調べ");
            assert_eq!(v.fk_num, "5");
        }
        _ => panic!("expected Found"),
    }
    assert_eq!(view.autocomplete("ステ", 5), vec!["アステシア".to_string()]);
    assert!(view.autocomplete("ケルシー", 5).is_empty());
}
