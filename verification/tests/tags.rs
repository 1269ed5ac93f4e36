use astesiabot_rust::fk_kill_calc::dto::DamageType;
use astesiabot_rust::fk_kill_calc::tags::{
    faction_tag_for, guess_damage_type, tag_vocabulary, tags_for, AMMO_SKILL_TAG,
};

#[test]
fn melee_position_adds_close_range_tag_before_profession_tag() {
    assert_eq!(tags_for("WARRIOR", "MELEE", ""), vec!["近距離".to_string(), "前衛".to_string()]);
}

#[test]
fn ranged_position_has_no_close_range_tag() {
    assert_eq!(tags_for("SNIPER", "RANGED", ""), vec!["狙撃".to_string()]);
}

#[test]
fn unknown_profession_yields_no_profession_tag() {
    assert_eq!(tags_for("UNKNOWN", "RANGED", ""), Vec::<String>::new());
}

#[test]
fn laterano_nation_id_adds_faction_tag_after_profession_tag() {
    assert_eq!(
        tags_for("SPECIAL", "RANGED", "laterano"),
        vec!["特殊".to_string(), "ラテラーノ".to_string()]
    );
}

#[test]
fn unknown_nation_id_yields_no_faction_tag() {
    assert_eq!(faction_tag_for("lungmen"), None);
    assert_eq!(faction_tag_for("laterano"), Some("ラテラーノ"));
}

#[test]
fn tag_vocabulary_contains_ammo_and_faction_tags() {
    let vocab = tag_vocabulary();
    assert!(vocab.contains(&AMMO_SKILL_TAG));
    assert!(vocab.contains(&"ラテラーノ"));
    assert!(vocab.contains(&"近距離"));
}

#[test]
fn caster_medic_support_guess_arts() {
    assert_eq!(guess_damage_type("CASTER"), DamageType::Arts);
    assert_eq!(guess_damage_type("MEDIC"), DamageType::Arts);
    assert_eq!(guess_damage_type("SUPPORT"), DamageType::Arts);
}

#[test]
fn others_guess_physical() {
    for p in ["PIONEER", "WARRIOR", "TANK", "SNIPER", "SPECIAL"] {
        assert_eq!(guess_damage_type(p), DamageType::Physical);
    }
}

#[test]
fn melee_laterano_operator_gets_all_three_tags_in_order() {
    assert_eq!(
        tags_for("SNIPER", "MELEE", "laterano"),
        vec!["近距離".to_string(), "狙撃".to_string(), "ラテラーノ".to_string()]
    );
}

#[test]
fn vocabulary_lists_every_profession_once() {
    let vocab = tag_vocabulary();
    assert_eq!(vocab.len(), 11);
    assert_eq!(vocab[0], "近距離");
    assert_eq!(vocab[1], "弾薬スキル");
    assert_eq!(vocab[10], "ラテラーノ");
}
