use astesiabot_rust::operator_cost_calc::value_set::ValueSet;
use astesiabot_rust::risei_calculator_engine::server::Server;
use astesiabot_rust::operator_cost_calc::checks::{
    operator_name_index, check_elite, check_module, check_skill_master, elite_ranking_applies, elite_ranking_text,
    module_header, no_master_data_error, ranking_windows, skill_ranking_text, OperatorShape,
};

fn shape(stars: u32, skills: usize, phases: usize, modules: usize) -> OperatorShape {
    OperatorShape { stars, skill_count: skills, phase_count: phases, module_count: modules, is_patch: false }
}

#[test]
fn unknown_operator_is_reported() {
    assert_eq!(check_skill_master("誰か", None, 1), Err("オペレーター【誰か】は存在しません".to_string()));
    assert_eq!(check_elite("誰か", None), Err("オペレーター【誰か】は存在しません".to_string()));
    assert_eq!(check_module("誰か", None), Err("オペレーター【誰か】は存在しません".to_string()));
}

#[test]
fn mastery_checks_each_error_in_turn() {
    assert_eq!(
        check_skill_master("ヤトウ", Some(shape(2, 0, 1, 0)), 1),
        Err("オペレーター【ヤトウ】はスキルが存在しません".to_string())
    );
    assert_eq!(
        check_skill_master("エクシア", Some(shape(6, 3, 3, 2)), 4),
        Err("オペレーター【エクシア】のスキル4は存在しません".to_string())
    );
    assert_eq!(
        check_skill_master("エクシア", Some(shape(6, 3, 3, 2)), 0),
        Err("オペレーター【エクシア】のスキル0は存在しません".to_string())
    );
    assert_eq!(
        check_skill_master("メランサ", Some(shape(3, 1, 2, 0)), 1),
        Err("オペレーター【メランサ】はスキルの特化は存在しません".to_string())
    );
    assert_eq!(check_skill_master("エクシア", Some(shape(6, 3, 3, 2)), 3), Ok(2));
}

#[test]
fn promotion_and_module_checks() {
    assert_eq!(check_elite("ヤトウ", Some(shape(2, 0, 0, 0))), Err("オペレーター【ヤトウ】の昇進は存在しません".to_string()));
    assert_eq!(check_elite("エクシア", Some(shape(6, 3, 3, 2))), Ok(()));
    assert_eq!(check_module("メランサ", Some(shape(3, 1, 2, 0))), Err("オペレーター【メランサ】のモジュールは存在しません".to_string()));
    assert_eq!(check_module("エクシア", Some(shape(6, 3, 3, 2))), Ok(()));
}

#[test]
fn ranking_applies_to_high_rarity_only() {
    assert!(elite_ranking_applies(shape(6, 3, 3, 2)));
    assert!(elite_ranking_applies(shape(5, 2, 3, 1)));
    assert!(!elite_ranking_applies(shape(4, 2, 3, 1)));
    let mut patch = shape(6, 3, 3, 0);
    patch.is_patch = true;
    assert!(!elite_ranking_applies(patch));
}

#[test]
fn ranking_texts() {
    assert_eq!(skill_ranking_text(6, 120, 0), "星6スキル120個中、第1位の消費です");
    assert_eq!(elite_ranking_text(5, 80, 9), "星5オペレーター80名中、第10位の消費です");
    assert_eq!(no_master_data_error(3), "星3の特化データがありません");
}

#[test]
fn module_heading_marks_mainland_only() {
    assert_eq!(module_header("EXE-X", true), "EXE-X(大陸版)");
    assert_eq!(module_header("EXE-Y", false), "EXE-Y");
}

#[test]
fn ranking_windows_of_short_and_long_lists() {
    assert_eq!(ranking_windows(4), (4, 0));
    assert_eq!(ranking_windows(25), (10, 15));
}

#[test]
fn ranked_skills_are_named_with_their_number() {
    assert_eq!(operator_name_index("エクシア", 3), "エクシア(S3)");
    assert_eq!(operator_name_index("", 12), "(S12)");
}

#[test]
fn values_are_chosen_by_server() {
    let v = ValueSet { global: 1.5_f64, mainland: 2.5_f64 };
    assert_eq!(*v.for_cn_only(true), 2.5);
    assert_eq!(*v.for_cn_only(false), 1.5);
    assert_eq!(*v.for_server(Server::Global), 1.5);
    assert_eq!(*v.for_server(Server::Mainland), 2.5);
}
