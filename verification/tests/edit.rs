use astesiabot_rust::recruit::calc::{RecruitData, MAX_TAG_COUNT};
use astesiabot_rust::recruit::edit::{apply_edit_commands, parse_title, tag_from_upper, EditError};
use astesiabot_rust::recruit::format::make_title;
use astesiabot_rust::recruit::model::TagList;

fn make_data() -> RecruitData {
    RecruitData::for_test(TagList {
        elite_tags: vec!["エリート".to_string(), "上級エリート".to_string()],
        job_tags: vec!["前衛".to_string(), "狙撃".to_string()],
        position_tags: vec!["近距離".to_string()],
        other_tags: vec!["COST回復".to_string(), "特殊".to_string()],
    })
}

#[test]
fn parse_title_strips_mainland_and_tag_loss() {
    let data = make_data();
    let parsed = parse_title(&data, "前衛 狙撃 COST回復 (大陸版)(タグ不足)").unwrap();
    assert!(!parsed.is_global);
    assert_eq!(parsed.tags, vec!["前衛", "狙撃", "COST回復"]);
}

#[test]
fn parse_title_rejects_unknown_token() {
    let data = make_data();
    assert!(parse_title(&data, "前衛 未知タグ").is_none());
}

#[test]
fn apply_edit_commands_adds_single_tag() {
    let data = make_data();
    let result = apply_edit_commands(&data, &["前衛".to_string()], "狙撃タイプ").unwrap();
    assert_eq!(result, vec!["前衛", "狙撃"]);
}

#[test]
fn apply_edit_commands_replaces_with_arrow() {
    let data = make_data();
    let result = apply_edit_commands(
        &data,
        &["前衛".to_string(), "狙撃".to_string()],
        "前衛->近距離",
    )
    .unwrap();
    assert_eq!(result, vec!["近距離", "狙撃"]);
}

#[test]
fn apply_edit_commands_expands_abbreviation() {
    let data = make_data();
    let result = apply_edit_commands(&data, &[], "上エリ").unwrap();
    assert_eq!(result, vec!["上級エリート"]);
}

#[test]
fn apply_edit_commands_rejects_unknown_tag() {
    let data = make_data();
    let err = apply_edit_commands(&data, &[], "存在しないタグ").unwrap_err();
    assert!(matches!(err, EditError::UnknownTags(_)));
}

#[test]
fn apply_edit_commands_rejects_too_many_tags() {
    let data = RecruitData::for_test(TagList {
        elite_tags: vec!["エリート".to_string(), "上級エリート".to_string()],
        job_tags: vec!["前衛".to_string(), "狙撃".to_string()],
        position_tags: vec!["近距離".to_string(), "遠距離".to_string()],
        other_tags: vec!["COST回復".to_string(), "特殊".to_string(), "医療".to_string()],
    });
    let existing: Vec<String> = vec![
        "前衛".to_string(),
        "狙撃".to_string(),
        "近距離".to_string(),
        "遠距離".to_string(),
        "COST回復".to_string(),
        "特殊".to_string(),
        "エリート".to_string(),
        "上級エリート".to_string(),
    ];
    assert_eq!(existing.len(), MAX_TAG_COUNT);
    let ok = apply_edit_commands(&data, &existing, "").unwrap();
    assert_eq!(ok.len(), MAX_TAG_COUNT);
    let err = apply_edit_commands(&data, &existing, "医療タイプ").unwrap_err();
    assert!(matches!(err, EditError::TooManyTags(9)));
}

#[test]
fn lower_case_command_is_upper_cased_before_lookup() {
    let data = make_data();
    let result = apply_edit_commands(&data, &[], "cost").unwrap();
    assert_eq!(result, vec!["COST回復"]);
}

#[test]
fn full_width_arrow_replaces_too() {
    let data = make_data();
    let result = apply_edit_commands(&data, &["前衛".to_string()], "前衛→特殊").unwrap();
    assert_eq!(result, vec!["特殊"]);
}

#[test]
fn unknown_tags_are_reported_in_order() {
    let data = make_data();
    match apply_edit_commands(&data, &[], "謎->謎2") {
        Err(EditError::UnknownTags(v)) => assert_eq!(v, vec!["謎", "謎2"]),
        _ => panic!("expected UnknownTags"),
    }
}

#[test]
fn repeated_and_blank_tags_are_dropped() {
    let data = make_data();
    let result = apply_edit_commands(
        &data,
        &["前衛".to_string(), " ".to_string(), "前衛".to_string()],
        "狙撃 狙撃",
    )
    .unwrap();
    assert_eq!(result, vec!["前衛", "狙撃"]);
}

#[test]
fn three_part_command_changes_nothing() {
    let data = make_data();
    let result = apply_edit_commands(&data, &["前衛".to_string()], "前衛->狙撃->特殊").unwrap();
    assert_eq!(result, vec!["前衛"]);
}

#[test]
fn title_made_by_make_title_parses_back() {
    let data = make_data();
    let tags = vec!["前衛".to_string(), "狙撃".to_string()];
    let title = make_title(&tags, false, true);
    assert_eq!(title, "前衛 狙撃 (大陸版)(タグ不足)");
    let parsed = parse_title(&data, &title).unwrap();
    assert_eq!(parsed.tags, tags);
    assert!(!parsed.is_global);
    let global = make_title(&tags, true, false);
    let parsed = parse_title(&data, &global).unwrap();
    assert_eq!(parsed.tags, tags);
    assert!(parsed.is_global);
}

#[test]
fn empty_title_is_refused() {
    let data = make_data();
    assert!(parse_title(&data, "(大陸版)").is_none());
}

#[test]
fn upper_cased_abbreviations_become_full_tag_names() {
    assert_eq!(tag_from_upper(String::from("上エリ")), "上級エリート");
    assert_eq!(tag_from_upper(String::from("エリ")), "エリート");
    assert_eq!(tag_from_upper(String::from("COST")), "COST回復");
    assert_eq!(tag_from_upper(String::from("コスト")), "COST回復");
    assert_eq!(tag_from_upper(String::from("コスト回復")), "COST回復");
    assert_eq!(tag_from_upper(String::from("狙撃")), "狙撃");
}
