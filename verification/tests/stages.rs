use astesiabot_rust::outer_source::item_names::ItemNames;
use astesiabot_rust::outer_source::names::StrMap;
use astesiabot_rust::risei_calculator_engine::texts::{full_name, main_drop_ja_str};
use astesiabot_rust::risei_calculator_engine::server::Server;
use astesiabot_rust::risei_calculator_engine::stage_info::{
    category_stage_ids, classify_stage, generate_category_seed, name_with_replicate,
    stages_for_min_times, StageKind,
};
use astesiabot_rust::risei_calculator_engine::table::StageCategoryInfo;

fn s(x: &str) -> String {
    x.to_string()
}

#[test]
fn main_and_side_stories_are_main_stages() {
    assert_eq!(classify_stage(Server::Global, "MAIN", "main_01", "main_01-07"), StageKind::Main);
    assert_eq!(classify_stage(Server::Global, "SUB", "main_04", "sub_04-2-3"), StageKind::Main);
    assert_eq!(
        classify_stage(Server::Global, "ACTIVITY", "permanent_sidestory_1_zone1", "a001_01_perm"),
        StageKind::Main
    );
}

#[test]
fn mainland_only_zone_is_left_out_on_global_only() {
    assert_eq!(classify_stage(Server::Global, "MAIN", "main_17", "main_17-01"), StageKind::Ignored);
    assert_eq!(classify_stage(Server::Mainland, "MAIN", "main_17", "main_17-01"), StageKind::Main);
}

#[test]
fn recruit_and_tough_zones_are_ignored() {
    assert_eq!(classify_stage(Server::Mainland, "MAIN", "recruit", "x"), StageKind::Ignored);
    assert_eq!(classify_stage(Server::Mainland, "MAIN", "main_10_tough", "tough_10-01"), StageKind::Ignored);
}

#[test]
fn running_event_stages_are_event_stages() {
    assert_eq!(classify_stage(Server::Global, "ACTIVITY", "act20side_zone1", "act20side_01"), StageKind::Event);
    assert_eq!(classify_stage(Server::Global, "ACTIVITY", "act20side_zone1", "act20side_gacha"), StageKind::Ignored);
    assert_eq!(classify_stage(Server::Global, "ACTIVITY", "act10d5_zone1", "a"), StageKind::Ignored);
    assert_eq!(classify_stage(Server::Global, "DAILY", "weekly_1", "wk_melee_1"), StageKind::Ignored);
}

#[test]
fn category_stages_are_looked_up_by_code_in_order() {
    let info = StageCategoryInfo {
        stages: vec![s("1-7"), s("9-9"), s("R8-2")],
        items: vec![],
        main_item: s("源岩"),
        to_ja: s("源岩系"),
        sub_item: vec![],
        sub_order: vec![],
    };
    let mut codes = StrMap::new();
    codes.insert(s("R8-2"), s("main_08-02"));
    codes.insert(s("1-7"), s("main_01-07"));
    assert_eq!(category_stage_ids(&info, &codes), vec![s("main_01-07"), s("main_08-02")]);
}

#[test]
fn seed_picks_one_candidate_per_category_without_repeats() {
    let cands = vec![vec![s("a"), s("b")], vec![], vec![s("a")], vec![s("c")]];
    let seed = generate_category_seed(&cands).unwrap();
    assert_eq!(seed.len(), 4);
    assert_eq!(seed[0], Some(s("b")));
    assert_eq!(seed[1], None);
    assert_eq!(seed[2], Some(s("a")));
    assert_eq!(seed[3], Some(s("c")));
}

#[test]
fn seed_fails_when_two_categories_share_their_only_stage() {
    let cands = vec![vec![s("a")], vec![s("a")]];
    let err = generate_category_seed(&cands).unwrap_err();
    assert!(err.starts_with("基準マップの初期seed生成が10000回"));
}

#[test]
fn rerun_zone_stage_is_marked() {
    assert_eq!(name_with_replicate("GT-5", "act_re_zone1"), "GT-5(Re)");
    assert_eq!(name_with_replicate("1-7", "main_01"), "1-7");
}

#[test]
fn stages_tried_often_enough_are_kept() {
    assert_eq!(stages_for_min_times(&vec![10, 1000, 3, 500], 100), vec![1, 3]);
    assert_eq!(stages_for_min_times(&vec![10, 20], 100), vec![0, 1]);
    assert_eq!(stages_for_min_times(&vec![], 100), Vec::<usize>::new());
}

fn item_names() -> ItemNames {
    let cn = vec![(s("4001"), s("龙门币")), (s("30011"), s("源岩")), (s("4006"), s("采购凭证"))];
    let mut jp = StrMap::new();
    jp.insert(s("4001"), s("龍門幣"));
    jp.insert(s("30011"), s("源岩"));
    ItemNames::build(&cn, &jp, &StrMap::new(), &vec![])
}

#[test]
fn main_drops_follow_the_stage_code() {
    let n = item_names();
    assert_eq!(main_drop_ja_str(&vec![s("30011"), s("4001")], &n), " 源岩 龍門幣");
    assert_eq!(main_drop_ja_str(&vec![s("4006")], &n), " 采购凭证");
    assert_eq!(main_drop_ja_str(&vec![s("none")], &n), " Missing");
    assert_eq!(main_drop_ja_str(&vec![], &n), "");
}

#[test]
fn unlimited_exchange_items_show_their_quantity() {
    let n = item_names();
    assert_eq!(full_name(&n, "龙门币", "∞"), "龍門幣(∞)");
    assert_eq!(full_name(&n, "龙门币", "20"), "龍門幣");
    assert_eq!(full_name(&n, "未知", "∞"), "未知(∞)");
}
