use astesiabot_rust::outer_source::fk_data::sheet_from_rows;

fn line(name: &str, skill: &str, fk: &str, edited: &str) -> Vec<String> {
    let mut cells: Vec<String> = vec![String::new(); 12];
    cells[4] = name.to_string();
    cells[6] = skill.to_string();
    cells[7] = fk.to_string();
    cells[10] = edited.to_string();
    cells[11] = "済".to_string();
    cells
}

#[test]
fn sheet_groups_edited_rows_by_operator_in_sheet_order() {
    let lines = vec![
        line("ヘッダ", "1", "1", "2024-01-01"),
        line("ヘッダ", "2", "2", "2024-01-01"),
        line("Ash", "3", "4", "2024-02-01"),
        line("チェン", "2", "9", "2024-02-02"),
        line("Ash", "1", "2", ""),
        vec!["短い".to_string(); 11],
        vec![],
        line("Ash", "2", "6", "2024-02-03"),
    ];
    let sheet = sheet_from_rows(&lines);
    let names: Vec<&str> = sheet.by_operator.keys().map(|k| k.as_str()).collect();
    assert_eq!(names, vec!["Ash", "チェン"]);
    let ash: Vec<(&str, &str)> =
        sheet.by_operator["Ash"].iter().map(|r| (r.skill_num.as_str(), r.fk_num.as_str())).collect();
    assert_eq!(ash, vec![("3", "4"), ("2", "6")]);
    assert_eq!(sheet.by_operator["チェン"][0].last_edited, "2024-02-02");
    assert_eq!(sheet.by_operator["チェン"][0].state, "済");
}

#[test]
fn sheet_of_headers_only_is_empty() {
    assert!(sheet_from_rows(&vec![]).by_operator.is_empty());
    assert!(sheet_from_rows(&vec![line("A", "1", "1", "x"), line("B", "1", "1", "x")]).by_operator.is_empty());
}
