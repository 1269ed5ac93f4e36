use astesiabot_rust::operator_names::OperatorNames;
use astesiabot_rust::outer_source::item_names::{apply_custom_item_ids, CustomIdEntry, ItemNames};
use astesiabot_rust::outer_source::names::{build_cn_to_ja, is_char_key, job_ja, CharEntry, StrMap};
use astesiabot_rust::outer_source::operator_names::OperatorNames as RegistryNames;
use astesiabot_rust::outer_source::skill_names::{SkillNames, SkillTableEntry};
use astesiabot_rust::outer_source::zones::Zones;

fn s(x: &str) -> String {
    x.to_string()
}

fn map(v: &[(&str, &str)]) -> StrMap {
    StrMap::from_pairs(v.iter().map(|(a, b)| (s(a), s(b))).collect())
}

#[test]
fn later_setting_wins() {
    let mut m = StrMap::new();
    m.insert(s("a"), s("1"));
    m.insert(s("b"), s("2"));
    m.insert(s("a"), s("3"));
    assert_eq!(m.get("a").map(|x| x.as_str()), Some("3"));
    assert_eq!(m.get("b").map(|x| x.as_str()), Some("2"));
    assert!(m.get("c").is_none());
    assert!(m.contains_key("b"));
}

#[test]
fn char_keys_start_with_char() {
    assert!(is_char_key("char_002_amiya"));
    assert!(!is_char_key("token_10000_silent_healrb"));
    assert!(!is_char_key("charm_001"));
    assert!(is_char_key("char"));
}

fn entry(key: &str, not_obtainable: bool, name: Option<&str>) -> CharEntry {
    CharEntry { key: s(key), not_obtainable, name: name.map(s) }
}

#[test]
fn operator_names_come_from_japanese_table_then_custom() {
    let cn = vec![
        entry("char_002_amiya", false, Some("阿米娅")),
        entry("char_999_new", false, Some("新人")),
        entry("token_1_x", false, Some("召唤物")),
        entry("char_500_npc", true, Some("不可获得")),
        entry("char_501_unnamed", false, None),
        entry("char_502_nobody", false, Some("无名")),
    ];
    let jp = map(&[("char_002_amiya", "アーミヤ")]);
    let custom = map(&[("新人", "ニューカマー"), ("召唤物", "召喚物")]);
    let table = build_cn_to_ja(&cn, &jp, &custom);
    assert_eq!(
        table.pairs().clone(),
        vec![(s("阿米娅"), s("アーミヤ")), (s("新人"), s("ニューカマー"))]
    );
    let names = OperatorNames::from_tables(&cn, &jp, &custom);
    assert_eq!(names.to_ja("阿米娅"), "アーミヤ");
    assert_eq!(names.to_ja("无名"), "无名");
    let reg = RegistryNames::from_tables(&cn, &jp, &custom);
    assert_eq!(reg.to_ja("新人"), "ニューカマー");
}

#[test]
fn empty_names_keep_mainland_names() {
    assert_eq!(OperatorNames::empty_for_test().to_ja("陈"), "陈");
    assert_eq!(RegistryNames::empty_for_test().to_ja("陈"), "陈");
    let fallback = OperatorNames::from_fetch(None, &map(&[("陈", "チェン")]));
    assert_eq!(fallback.to_ja("陈"), "陈");
    let cn = vec![CharEntry { key: s("char_010_chen"), not_obtainable: false, name: Some(s("陈")) }];
    let fetched = OperatorNames::from_fetch(Some((&cn, &map(&[]))), &map(&[("陈", "チェン")]));
    assert_eq!(fetched.to_ja("陈"), "チェン");
}

#[test]
fn job_names() {
    assert_eq!(job_ja("WARRIOR"), "前衛");
    assert_eq!(job_ja("MEDIC"), "医療");
    assert_eq!(job_ja("TRAPPER"), "不明");
}

#[test]
fn skill_names_prefer_japanese_table() {
    let es = vec![
        SkillTableEntry { id: s("sk1"), in_jp: true, jp_name: Some(s("日本語名")), cn_name: Some(s("中文名")) },
        SkillTableEntry { id: s("sk2"), in_jp: false, jp_name: None, cn_name: Some(s("仅中文")) },
        SkillTableEntry { id: s("sk3"), in_jp: true, jp_name: None, cn_name: Some(s("不用")) },
    ];
    let n = SkillNames::from_entries(&es);
    assert_eq!(n.get_str("sk1"), "日本語名");
    assert_eq!(n.get_str("sk2"), "仅中文");
    assert_eq!(n.get_str("sk3"), "Missing");
    assert_eq!(SkillNames::empty_for_test().get_str("sk1"), "Missing");
}

#[test]
fn zone_names() {
    let z = Zones::new(map(&[("main_1", "1章")]));
    assert_eq!(z.get_str("main_1"), "1章");
    assert_eq!(z.get_str("main_2"), "Missing");
}

fn custom(id: &str, zh: &str, ja: &str) -> CustomIdEntry {
    CustomIdEntry { id: s(id), zh: s(zh), ja: s(ja) }
}

fn item_names() -> ItemNames {
    let cn = vec![(s("4001"), s("龙门币")), (s("30011"), s("源岩")), (s("cn_only"), s("新材料"))];
    let jp = map(&[("4001", "龍門幣"), ("30011", "源岩"), ("jp_only", "日本限定")]);
    let custom_zh_to_ja = map(&[("新材料", "新素材")]);
    ItemNames::build(&cn, &jp, &custom_zh_to_ja, &vec![])
}

#[test]
fn item_names_translate_both_ways() {
    let n = item_names();
    assert_eq!(n.zh_to_ja("龙门币"), "龍門幣");
    assert_eq!(n.zh_to_ja("新材料"), "新素材");
    assert_eq!(n.zh_to_ja("未知"), "未知");
    assert_eq!(n.get_str("4001"), "龍門幣");
    assert_eq!(n.get_str("jp_only"), "日本限定");
    assert_eq!(n.get_str("none"), "Missing");
    assert_eq!(n.get_zh("jp_only"), "Missing");
    assert_eq!(n.zh_to_id("源岩"), Some("30011"));
    assert_eq!(n.ja_to_id("日本限定"), Some("jp_only"));
    assert_eq!(n.ja_to_id("無い"), None);
}

#[test]
fn custom_items_fill_missing_names() {
    let mut n = item_names();
    apply_custom_item_ids(
        &mut n,
        &vec![
            custom("jp_only", "日本限定中文", "日本限定"),
            custom("brand_new", "全新", "真新しい"),
            custom("other_id", "龙门币", "別名"),
        ],
    );
    assert_eq!(n.get_zh("jp_only"), "日本限定中文");
    assert_eq!(n.zh_to_ja("全新"), "真新しい");
    assert_eq!(n.zh_to_id("全新"), Some("brand_new"));
    // 龙门币 is known under 4001, which already has a Japanese name.
    assert_eq!(n.ja_to_id("別名"), None);
    assert_eq!(n.get_str("other_id"), "Missing");
}

#[test]
fn empty_item_names_report_missing() {
    let n = ItemNames::empty();
    assert_eq!(n.get_str("4001"), "Missing");
    assert_eq!(n.zh_to_ja("龙门币"), "龙门币");
}
