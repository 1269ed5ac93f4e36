use astesiabot_rust::outer_source::description::{
    apply_literal_fixups, clean_field_name, frame_description, int_string, placeholder_parts,
    skill_type_label, sp_type_label, strip_tags, PlaceholderFormat,
};
use astesiabot_rust::outer_source::skill_data::RawSpData;

fn sp(t: &str, init: i64, cost: i64) -> RawSpData {
    RawSpData { sp_type: t.to_string(), init_sp: init, sp_cost: cost }
}

#[test]
fn highlight_tags_are_removed_keeping_text() {
    assert_eq!(
        strip_tags("攻撃力<@ba.vup>+{atk:0%}</>、<$ba.dt.element>元素</>").unwrap(),
        "攻撃力+{atk:0%}、元素"
    );
    assert_eq!(strip_tags("タグなし").unwrap(), "タグなし");
}

#[test]
fn literal_fixups_apply_in_order() {
    assert_eq!(apply_literal_fixups("-{-atk}"), "{atk}");
    assert_eq!(apply_literal_fixups("{-atk}"), "-{atk}");
    assert_eq!(apply_literal_fixups("a\\nb AOE"), "a\nb aoe");
}

#[test]
fn field_names_lose_brackets_and_dots() {
    assert_eq!(clean_field_name("attack@s2.atk_scale"), "attack@s2atk_scale");
    assert_eq!(clean_field_name("max_target[0]"), "max_target0");
}

#[test]
fn labels() {
    assert_eq!(skill_type_label("AUTO"), "自動発動");
    assert_eq!(skill_type_label("MANUAL"), "手動発動");
    assert_eq!(skill_type_label("PASSIVE"), "パッシブ");
    assert_eq!(skill_type_label("OTHER"), "OTHER");
    assert_eq!(sp_type_label("INCREASE_WITH_TIME"), "自然回復");
    assert_eq!(sp_type_label("INCREASE_WHEN_ATTACK"), "攻撃回復");
    assert_eq!(sp_type_label("INCREASE_WHEN_TAKEN_DAMAGE"), "被撃回復");
    assert_eq!(sp_type_label("8"), "8");
}

#[test]
fn description_header_for_active_and_passive_skills() {
    assert_eq!(
        frame_description("MANUAL", &sp("INCREASE_WITH_TIME", 10, 40), Some("30.0"), "本文"),
        "自然回復/手動発動 ⌚30.0秒\n▶10 ⚡40\n本文"
    );
    assert_eq!(
        frame_description("PASSIVE", &sp("INCREASE_WITH_TIME", 0, 0), None, "常時"),
        "パッシブ\n常時"
    );
}

#[test]
fn signed_numbers() {
    assert_eq!(int_string(0), "0");
    assert_eq!(int_string(-15), "-15");
    assert_eq!(int_string(i64::MIN), "-9223372036854775808");
}

#[test]
fn placeholder_names_and_formats_are_read() {
    assert_eq!(placeholder_parts("atk"), (String::from("atk"), Some(PlaceholderFormat::Number)));
    assert_eq!(placeholder_parts("-[atk]:0%"), (String::from("-atk"), Some(PlaceholderFormat::Percent0)));
    assert_eq!(placeholder_parts("x:.0%"), (String::from("x"), Some(PlaceholderFormat::Percent0)));
    assert_eq!(placeholder_parts("a.b:0.0%"), (String::from("ab"), Some(PlaceholderFormat::Percent1)));
    assert_eq!(placeholder_parts("t:0.0"), (String::from("t"), Some(PlaceholderFormat::Fixed1)));
    assert_eq!(placeholder_parts("t:0"), (String::from("t"), Some(PlaceholderFormat::Number)));
    assert_eq!(placeholder_parts("t:0.00"), (String::from("t"), None));
    assert_eq!(placeholder_parts("t:0:0"), (String::from("t"), None));
}
