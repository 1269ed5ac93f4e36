use astesiabot_rust::recruit::calc::{releases_from, MatchItem, OperatorRef, RecruitData};
use astesiabot_rust::recruit::engine::{EmbedReply, MsgType, RecruitEngine};
use astesiabot_rust::recruit::format::{
    arrangement_chunks, chunk_text, display_chunks, make_title, response_for_ai,
};
use astesiabot_rust::recruit::matcher::{extend_by_hits, pick_match_exec, starts_at_front, Matcher};
use astesiabot_rust::recruit::model::{FutureEntry, Operator, OperatorDb, TagList};
use std::collections::BTreeSet;

fn s(x: &str) -> String {
    x.to_string()
}

fn tag_list() -> TagList {
    TagList {
        elite_tags: vec![s("エリート"), s("上級エリート")],
        job_tags: vec![s("前衛"), s("狙撃"), s("医療")],
        position_tags: vec![s("近距離"), s("遠距離")],
        other_tags: vec![s("治療"), s("火力"), s("ロボット")],
    }
}

fn op(name: &str, job: &str, tags: &[&str], stars: u8) -> Operator {
    Operator { name: s(name), job: s(job), tags: tags.iter().map(|t| s(t)).collect(), stars }
}

fn data() -> RecruitData {
    let db = OperatorDb {
        main: vec![
            op("メランサ", "前衛", &["近距離", "火力"], 3),
            op("ドーベルマン", "前衛", &["近距離", "火力"], 4),
            op("ハイビスカス", "医療", &["遠距離", "治療"], 3),
            op("Lancet-2", "医療", &["遠距離", "治療", "ロボット"], 1),
        ],
        future: vec![FutureEntry {
            comment: None,
            yyyymmdd: s("20240101"),
            op_list: vec![op("未来の子", "狙撃", &["遠距離", "火力"], 5)],
        }],
    };
    RecruitData::new(db, tag_list(), 4)
}

fn pairs(v: &[(&str, &str)]) -> Vec<(String, String)> {
    v.iter().map(|(a, b)| (s(a), s(b))).collect()
}

fn matcher() -> Matcher {
    Matcher::new(
        pairs(&[
            ("前衛", "前衛"),
            ("狙撃", "狙撃"),
            ("医療", "医療"),
            ("近距離", "近距離"),
            ("遠距離", "遠距離"),
            ("治療", "治療"),
            ("火力", "火力"),
            ("ロボット", "ロボット"),
        ]),
        pairs(&[("Guard", "前衛"), ("Sniper", "狙撃"), ("Medic", "医療"), ("Melee", "近距離"), ("Ranged", "遠距離")]),
        pairs(&[("近卫干员", "前衛"), ("狙击干员", "狙撃"), ("医疗干员", "医療"), ("近战位", "近距離"), ("远程位", "遠距離")]),
    )
}

#[test]
fn future_release_is_read_at_the_given_hour_tokyo_time() {
    let d = data();
    assert_eq!(d.future_releases().len(), 1);
    // 2024-01-01 04:00 in Tokyo is 2023-12-31 19:00 UTC.
    assert_eq!(d.future_releases()[0].release, 1704049200);
}

#[test]
fn unreadable_release_date_is_left_out() {
    let db = OperatorDb {
        main: vec![],
        future: vec![FutureEntry { comment: Some(s("未定")), yyyymmdd: s("そのうち"), op_list: vec![] }],
    };
    let d = RecruitData::new(db, tag_list(), 4);
    assert_eq!(d.future_releases().len(), 0);
}

#[test]
fn normalize_names_keeps_known_tags_in_definition_order() {
    let d = data();
    let got = d.normalize_names(&vec![s("治療"), s("未知"), s("医療"), s("医療"), s("遠距離")]);
    assert_eq!(got, vec![s("医療"), s("遠距離"), s("治療")]);
}

#[test]
fn calculation_finds_guaranteed_combinations() {
    let d = data();
    let items = d.calculate_at(&vec![s("前衛"), s("火力")], true, 4, None, 0);
    // 前衛+火力 gives メランサ(3) and ドーベルマン(4): min 3, not kept at threshold 4.
    assert!(items.iter().all(|m| m.min_star >= 4 || m.contains_pickup));
    let items = d.calculate_at(&vec![s("医療"), s("ロボット")], true, 4, None, 0);
    // ロボット alone guarantees the 1-star robot, which is kept at threshold 4.
    assert!(items.iter().any(|m| m.combo == vec![s("ロボット")] && m.min_star == 1));
}

#[test]
fn future_operator_counts_only_after_release_on_global() {
    let d = data();
    let before = d.calculate_at(&vec![s("狙撃")], true, 4, None, 1704049199);
    assert!(before.is_empty());
    let after = d.calculate_at(&vec![s("狙撃")], true, 4, None, 1704049200);
    assert_eq!(after.len(), 1);
    assert_eq!(after[0].min_star, 5);
    let mainland = d.calculate_at(&vec![s("狙撃")], false, 4, None, 0);
    assert_eq!(mainland.len(), 1);
}

#[test]
fn pickup_is_reported_when_contained() {
    let d = data();
    let pickup = vec![s("ドーベルマン")];
    let items = d.calculate_at(&vec![s("前衛")], true, 4, Some(&pickup), 0);
    assert_eq!(items.len(), 1);
    assert!(items[0].contains_pickup);
    assert_eq!(items[0].pickup_target, vec![s("ドーベルマン")]);
}

#[test]
fn matcher_reads_japanese_lines_and_cleans_marks() {
    let m = matcher();
    let r = m.match_tag("前衛・\n 狙撃 \n医療\n近距離 遠距離\n").unwrap();
    let mut got = r.matches.clone();
    got.sort();
    let mut want = vec![s("前衛"), s("狙撃"), s("医療"), s("近距離"), s("遠距離")];
    want.sort();
    assert_eq!(got, want);
    assert!(r.is_global);
}

#[test]
fn matcher_fixes_misread_characters() {
    let m = matcher();
    // "工リート" is read as "エリート" after the corrections; the pattern
    // table then maps it, and "医療タイプ" matches "医療...?".
    let lines = m.clean_text("工リート\n口ボット").unwrap();
    assert_eq!(lines, vec![s("エリート"), s("ロボット")]);
    let r = m.match_tag("医療タイプ").unwrap();
    assert!(r.matches.contains(&s("医療")));
}

#[test]
fn matcher_falls_back_to_chinese_for_mainland() {
    let m = matcher();
    let r = m.match_tag("近卫干员\n狙击干员\n医疗干员\n近战位\n远程位").unwrap();
    assert_eq!(r.matches.len(), 5);
    assert!(!r.is_global);
}

#[test]
fn engine_replies_with_error_when_nothing_is_recognised() {
    let engine = RecruitEngine { matcher: matcher(), data: data() };
    let reply = engine.process_from_ocr_at("なにもない", None, 0).unwrap();
    assert_eq!(reply.title, "エラー");
    assert_eq!(reply.reply, "タグがありません");
    let embed = engine.process_for_embed_at("なにもない", 0).unwrap();
    assert_eq!(embed.chunks, vec![s("タグがありません")]);
    assert!(embed.msg_type == MsgType::Failure);
}

#[test]
fn engine_reports_no_result_for_low_rarity_tags() {
    let engine = RecruitEngine { matcher: matcher(), data: data() };
    let reply = engine.process_from_ocr_at("火力", None, 0).unwrap();
    assert_eq!(reply.title, "火力(タグ不足)");
    assert_eq!(reply.reply, "★4以上になる組み合わせはありません");
}

#[test]
fn engine_text_reply_lists_robot_combination() {
    let engine = RecruitEngine { matcher: matcher(), data: data() };
    let reply = engine.process_from_ocr_at("ロボット", None, 0).unwrap();
    assert_eq!(reply.title, "ロボット(タグ不足)");
    assert_eq!(reply.reply, "ロボット ->★1\nLancet-2\n");
    let embed = engine.process_for_embed_at("ロボット", 0).unwrap();
    assert_eq!(embed.chunks, vec![s("ロボット -> ★1```\n★1Lancet-2```\n")]);
    assert!(embed.msg_type == MsgType::Success);
}

#[test]
fn message_colours() {
    assert_eq!(MsgType::Success.colour(), 0x8be02b);
    assert_eq!(MsgType::Failure.colour(), 0xff00ff);
    let e = EmbedReply::error("失敗");
    assert_eq!(e.title, "エラー");
    assert_eq!(e.chunks, vec![s("失敗")]);
}

#[test]
fn title_marks_mainland_and_tag_count() {
    let five = vec![s("a"), s("b"), s("c"), s("d"), s("e")];
    assert_eq!(make_title(&five, true, true), "a b c d e");
    let six = vec![s("a"), s("b"), s("c"), s("d"), s("e"), s("f")];
    assert_eq!(make_title(&six, false, true), "a b c d e f (大陸版)(タグ過多)");
    assert_eq!(make_title(&six, true, false), "a b c d e f");
}

#[test]
fn chunk_text_prefers_newlines_then_spaces() {
    assert_eq!(chunk_text("短い", 10), vec![s("短い")]);
    assert_eq!(chunk_text("abc\ndef ghi", 5), vec![s("abc"), s("def"), s("ghi")]);
    assert_eq!(chunk_text("abcdefgh", 3), vec![s("abc"), s("def"), s("gh")]);
}

#[test]
fn arrangement_packs_messages_greedily() {
    let msgs = vec![s("aa"), s("bb"), s("cccc"), s("dd")];
    assert_eq!(arrangement_chunks(&msgs, 4), vec![s("aabb"), s("cccc"), s("dd")]);
    let long = vec![s("x"), s("abcdefg")];
    assert_eq!(arrangement_chunks(&long, 3), vec![s("x"), s("abc"), s("def"), s("g")]);
}

#[test]
fn zero_limit_splits_only_at_separators() {
    assert_eq!(chunk_text("", 0), vec![s("")]);
    assert_eq!(chunk_text("\n \n", 0), vec![s(""), s(""), s("")]);
    assert_eq!(arrangement_chunks(&[], 0), Vec::<String>::new());
    assert_eq!(arrangement_chunks(&[s("abc"), s(" ")], 0), vec![s("abc"), s("")]);
    assert_eq!(arrangement_chunks(&[s(""), s("")], 0), vec![s("")]);
}

fn item(combo: &[&str], min_star: u8, ops: &[(&str, u8)], pickup: bool) -> MatchItem {
    MatchItem {
        combo: combo.iter().map(|c| s(c)).collect(),
        min_star,
        operators: ops.iter().map(|(n, k)| OperatorRef { name: s(n), stars: *k }).collect(),
        star_set: ops.iter().map(|(_, k)| *k).collect::<BTreeSet<u8>>(),
        contains_pickup: pickup,
        pickup_target: if pickup { vec![s(ops[0].0)] } else { vec![] },
    }
}

#[test]
fn results_are_shown_pickups_first_then_by_rarity() {
    let items = vec![
        item(&["A"], 4, &[("x", 4)], false),
        item(&["B"], 5, &[("y", 5)], false),
        item(&["C"], 4, &[("z", 4)], true),
    ];
    let chunks = display_chunks(items);
    assert_eq!(chunks.len(), 3);
    assert!(chunks[0].starts_with("C -> ★4"));
    assert!(chunks[1].starts_with("B -> ★5"));
    assert!(chunks[2].starts_with("A -> ★4"));
}

#[test]
fn text_reply_groups_pickups_by_rarity() {
    let items = vec![item(&["C", "D"], 4, &[("z", 4), ("w", 4), ("v", 5)], true)];
    assert_eq!(response_for_ai(items), "C+D ->★4,5\nz(他★4が1人)\n");
}

#[test]
fn entries_with_an_instant_are_released_in_order() {
    let entry = |d: &str, name: &str| FutureEntry {
        comment: None,
        yyyymmdd: s(d),
        op_list: vec![op(name, "狙撃", &["狙撃タイプ"], 6)],
    };
    let future = vec![entry("20240101", "A"), entry("??", "B"), entry("20240301", "C")];
    let r = releases_from(future, &vec![Some(100), None, Some(300)]);
    assert_eq!(r.len(), 2);
    assert_eq!((r[0].release, r[0].operators[0].name.as_str()), (100, "A"));
    assert_eq!((r[1].release, r[1].operators[0].name.as_str()), (300, "C"));
}

#[test]
fn pattern_hits_extend_the_found_tags_up_to_five() {
    let extra = vec![(s("p1"), s("支援")), (s("p2"), s("術師")), (s("p3"), s("狙撃"))];
    assert_eq!(
        extend_by_hits(vec![s("術師")], &extra, &vec![true, true, false]),
        vec![s("術師"), s("支援")]
    );
    let full = vec![s("a"), s("b"), s("c"), s("d")];
    assert_eq!(
        extend_by_hits(full, &extra, &vec![true, false, true]),
        vec![s("a"), s("b"), s("c"), s("d"), s("支援")]
    );
    assert!(starts_at_front(Some(0)));
    assert!(!starts_at_front(Some(3)));
    assert!(!starts_at_front(None));
}

#[test]
fn dictionary_results_are_picked_in_order() {
    let v = |xs: &[&str]| xs.iter().map(|x| s(x)).collect::<Vec<String>>();
    let five = v(&["a", "b", "c", "d", "e"]);
    let r = pick_match_exec(five.clone(), v(&["x"]), v(&["y"]));
    assert_eq!((r.matches, r.is_global), (five.clone(), true));
    let r = pick_match_exec(v(&["a"]), five.clone(), v(&["y"]));
    assert_eq!((r.matches, r.is_global), (five.clone(), true));
    let r = pick_match_exec(v(&["a"]), v(&["x"]), five.clone());
    assert_eq!((r.matches, r.is_global), (five, false));
    let r = pick_match_exec(v(&["a"]), v(&["x", "z"]), v(&["a", "b"]));
    assert_eq!((r.matches, r.is_global), (v(&["a", "b"]), false));
    let r = pick_match_exec(v(&["a", "c"]), v(&["x", "y", "z"]), v(&["a"]));
    assert_eq!((r.matches, r.is_global), (v(&["x", "y", "z"]), true));
    let r = pick_match_exec(v(&["a", "c"]), v(&["x"]), v(&["b"]));
    assert_eq!((r.matches, r.is_global), (v(&["a", "c", "b"]), true));
}
