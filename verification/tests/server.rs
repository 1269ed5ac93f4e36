use astesiabot_rust::risei_calculator_engine::server::{
    item_rarity2, item_rarity3, item_rarity4, new_zone_mainland_only, stage_category_dict,
    value_target, Server, StageCategoryFile,
};
use astesiabot_rust::risei_calculator_engine::table::{CategoryTable, StageCategoryInfo};

fn info(main: &str) -> StageCategoryInfo {
    StageCategoryInfo {
        stages: vec![format!("{main}-1")],
        items: vec![main.to_string()],
        main_item: main.to_string(),
        to_ja: format!("{main}系"),
        sub_item: vec![],
        sub_order: vec![1, 2],
    }
}

#[test]
fn mainland_lists_add_new_items() {
    assert_eq!(value_target(Server::Global).len(), 65);
    let m = value_target(Server::Mainland);
    assert_eq!(m.len(), 69);
    assert_eq!(m[0], "基础作战记录");
    assert_eq!(m[68], "液化醚吸聚体");
    assert_eq!(item_rarity2(Server::Global).len(), 19);
    assert_eq!(item_rarity2(Server::Mainland).len(), 21);
    assert_eq!(item_rarity3(Server::Mainland)[19], "聚能动力单元");
    assert_eq!(item_rarity4(Server::Global), item_rarity4(Server::Mainland));
    assert_eq!(new_zone_mainland_only(), vec!["main_17"]);
}

#[test]
fn category_table_keeps_name_order_and_replaces() {
    let t = CategoryTable::from_entries(vec![
        ("b".to_string(), info("B")),
        ("a".to_string(), info("A")),
        ("c".to_string(), info("C")),
        ("a".to_string(), info("A2")),
    ]);
    let names: Vec<&str> = t.entries().iter().map(|(k, _)| k.as_str()).collect();
    assert_eq!(names, vec!["a", "b", "c"]);
    assert_eq!(t.get("a").unwrap().main_item, "A2");
    assert!(t.get("d").is_none());
}

#[test]
fn mainland_categories_include_new_ones() {
    let file = StageCategoryFile {
        main: CategoryTable::from_entries(vec![("b".to_string(), info("B")), ("d".to_string(), info("D"))]),
        new: CategoryTable::from_entries(vec![("a".to_string(), info("A")), ("d".to_string(), info("D2"))]),
    };
    let g = stage_category_dict(&file, Server::Global);
    let names: Vec<&str> = g.entries().iter().map(|(k, _)| k.as_str()).collect();
    assert_eq!(names, vec!["b", "d"]);
    let m = stage_category_dict(&file, Server::Mainland);
    let names: Vec<&str> = m.entries().iter().map(|(k, _)| k.as_str()).collect();
    assert_eq!(names, vec!["a", "b", "d"]);
    assert_eq!(m.get("d").unwrap().main_item, "D2");
}
