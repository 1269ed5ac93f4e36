use astesiabot_rust::operator_cost_calc::stats::{master_stats_layout, MasterStatsLayout};
use astesiabot_rust::outer_source::ark_stages::RawDropInfo;
use astesiabot_rust::outer_source::item_names::ItemNames;
use astesiabot_rust::outer_source::names::StrMap;
use astesiabot_rust::outer_source::zones::Zones;
use astesiabot_rust::risei_calculator_engine::search_plan::{needs_mainland, stage_search_plan};
use astesiabot_rust::risei_calculator_engine::server::{Server, StageCategoryFile};
use astesiabot_rust::risei_calculator_engine::stage_info::{accept_draw, generate_category_seed};
use astesiabot_rust::risei_calculator_engine::stage_tables::{build_stage_tables, DropRecord, StageRow};
use astesiabot_rust::risei_calculator_engine::table::{CategoryTable, StageCategoryInfo};

fn s(x: &str) -> String {
    x.to_string()
}

fn places(lo: usize, hi: usize) -> Vec<(usize, usize)> {
    (lo..hi).map(|i| (i + 1, i)).collect()
}

#[test]
fn recent_only_layout_keeps_ranks_among_all() {
    let l = master_stats_layout(6, &vec![false, true, false, true], true).unwrap();
    assert_eq!(l, MasterStatsLayout::Recent { star: 6, skill_nums: 4, entries: vec![(2, 1), (4, 3)] });
    let empty = master_stats_layout(5, &vec![], true).unwrap();
    assert_eq!(empty, MasterStatsLayout::Recent { star: 5, skill_nums: 0, entries: vec![] });
}

#[test]
fn full_layout_shows_both_ends_and_ten_of_each() {
    let l = master_stats_layout(6, &vec![false; 12], false).unwrap();
    assert_eq!(
        l,
        MasterStatsLayout::Full {
            star: 6,
            skill_nums: 12,
            heaviest: 0,
            lightest: 11,
            top_heaviest: places(0, 10),
            top_lightest: places(2, 12),
        }
    );
    let short = master_stats_layout(4, &vec![true, false, false], false).unwrap();
    assert_eq!(
        short,
        MasterStatsLayout::Full {
            star: 4,
            skill_nums: 3,
            heaviest: 0,
            lightest: 2,
            top_heaviest: places(0, 3),
            top_lightest: places(0, 3),
        }
    );
}

#[test]
fn empty_ranking_is_an_error() {
    assert_eq!(master_stats_layout(6, &vec![], false).unwrap_err(), "星6の特化データがありません");
}

#[test]
fn global_search_without_hits_falls_back_to_mainland() {
    assert!(needs_mainland(Server::Global, 0));
    assert!(!needs_mainland(Server::Global, 2));
    assert!(!needs_mainland(Server::Mainland, 0));
    let (server, order) =
        stage_search_plan(Server::Global, "14-1", &vec![], &vec![s("14-1(b)"), s("14-1(a)")]).unwrap();
    assert_eq!(server, Server::Mainland);
    assert_eq!(order, vec![1, 0]);
}

#[test]
fn search_hits_come_in_name_order() {
    let hits = vec![s("c"), s("a"), s("b"), s("a")];
    let (server, order) = stage_search_plan(Server::Global, "x", &hits, &vec![s("z")]).unwrap();
    assert_eq!(server, Server::Global);
    assert_eq!(order, vec![1, 3, 2, 0]);
}

#[test]
fn search_without_any_stage_is_an_error() {
    assert_eq!(stage_search_plan(Server::Global, "99-9", &vec![], &vec![]).unwrap_err(), "無効なステージ指定99-9");
    assert_eq!(
        stage_search_plan(Server::Mainland, "99-9", &vec![], &vec![s("x")]).unwrap_err(),
        "無効なステージ指定99-9"
    );
}

#[test]
fn seed_without_choices_always_succeeds() {
    let cands = vec![vec![s("a")], vec![], vec![s("b")]];
    assert_eq!(generate_category_seed(&cands).unwrap(), vec![Some(s("a")), None, Some(s("b"))]);
    assert_eq!(generate_category_seed(&vec![]).unwrap(), Vec::<Option<String>>::new());
}

fn row(id: &str, code: &str, zone: &str, kind: &str, drops: Vec<RawDropInfo>) -> StageRow<u32> {
    StageRow { stage_id: s(id), code: s(code), zone_id: s(zone), stage_type: s(kind), drop_infos: drops, payload: 7 }
}

fn record(stage: &str, item: &str, times: i64, quantity: f64, has_end: bool) -> DropRecord<f64> {
    DropRecord { stage_id: s(stage), item_id: s(item), times, quantity, has_end }
}

#[test]
fn stage_tables_count_the_right_records() {
    let normal = |id: &str| RawDropInfo { item_id: Some(s(id)), drop_type: s("NORMAL_DROP") };
    let stages = vec![
        row("main_01-07", "1-7", "main_01", "MAIN", vec![
            normal("30011"),
            RawDropInfo { item_id: Some(s("4001")), drop_type: s("EXTRA_DROP") },
            RawDropInfo { item_id: None, drop_type: s("NORMAL_DROP") },
        ]),
        row("act20side_01", "AS-1", "act20side_zone1", "ACTIVITY", vec![]),
        row("tough_10-01", "10-1", "main_10_tough", "MAIN", vec![]),
        row("main_17-01", "17-1", "main_17", "MAIN", vec![]),
    ];
    let records = vec![
        record("main_01-07", "30011", 100, 50.0, false),
        record("main_01-07", "30011", 5000, 1.0, true),
        record("main_01-07", "9999", 900, 3.0, false),
        record("main_01-07", "4001", 150, 20.0, false),
        record("main_01-07", "30011", 200, 90.0, false),
        record("act20side_01", "30011", 300, 10.0, true),
        record("tough_10-01", "30011", 800, 10.0, false),
    ];
    let mut main_cats = CategoryTable::new();
    main_cats.insert(
        s("源岩"),
        StageCategoryInfo {
            stages: vec![s("9-9"), s("1-7")],
            items: vec![],
            main_item: s("源岩"),
            to_ja: s("源岩系"),
            sub_item: vec![],
            sub_order: vec![],
        },
    );
    let file = StageCategoryFile { main: main_cats, new: CategoryTable::new() };
    let cn = vec![(s("4001"), s("龙门币")), (s("30011"), s("源岩"))];
    let names = ItemNames::build(&cn, &StrMap::new(), &StrMap::new(), &vec![]);
    let mut zone_names = StrMap::new();
    zone_names.insert(s("main_01"), s("第一章"));
    let zones = Zones::new(zone_names);

    let t = build_stage_tables::<u32, f64>(Server::Global, stages, &records, &file, &names, &zones);

    assert_eq!(t.main.len(), 1);
    let m = &t.main[0];
    assert_eq!(m.stage_id, "main_01-07");
    assert_eq!(m.zone_name, "第一章");
    assert_eq!(m.main_drop_ids, vec![s("30011")]);
    assert_eq!(m.payload, 7);
    assert_eq!(m.drops, vec![(s("30011"), 90.0, 200)]);
    assert_eq!(m.max_times, 200);

    assert_eq!(t.event.len(), 1);
    let e = &t.event[0];
    assert_eq!(e.stage_id, "act20side_01");
    assert_eq!(e.zone_name, "Missing");
    assert_eq!(e.drops, vec![(s("30011"), 10.0, 300)]);
    assert_eq!(e.max_times, 300);

    assert_eq!(t.main_code_to_id.pairs(), &vec![(s("1-7"), s("main_01-07"))]);
    assert_eq!(t.event_code_to_id.pairs(), &vec![(s("AS-1"), s("act20side_01"))]);
    assert_eq!(t.categories.len(), 1);
    assert_eq!(t.categories[0].0, "源岩");
    assert_eq!(t.categories[0].1.stage_ids, vec![s("main_01-07")]);
}

#[test]
fn stage_without_counted_records_was_never_tried() {
    let stages = vec![row("main_01-07", "1-7", "main_01", "MAIN", vec![])];
    let records = vec![record("main_01-07", "30011", 5000, 1.0, true)];
    let file = StageCategoryFile { main: CategoryTable::new(), new: CategoryTable::new() };
    let names = ItemNames::build(&vec![(s("30011"), s("源岩"))], &StrMap::new(), &StrMap::new(), &vec![]);
    let t = build_stage_tables::<u32, f64>(Server::Mainland, stages, &records, &file, &names, &Zones::new(StrMap::new()));
    assert_eq!(t.main[0].max_times, 0);
    assert!(t.main[0].drops.is_empty());
}

#[test]
fn draw_without_repeats_is_accepted_as_drawn() {
    let draw = vec![Some(s("b")), None, Some(s("a"))];
    assert_eq!(accept_draw(draw.clone()), Some(draw));
    assert_eq!(accept_draw(vec![Some(s("a")), None, Some(s("a"))]), None);
    assert_eq!(accept_draw(vec![None, None]), Some(vec![None, None]));
}
