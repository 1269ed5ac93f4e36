use astesiabot_rust::fk_kill_calc::catalog::{multiplier_keys, normalize_operator_name};
use astesiabot_rust::fk_kill_calc::dto::{
    damage_type_from_bool, damage_type_from_str, DamageType, ValueSource, Valued,
};

fn s(x: &str) -> String {
    x.to_string()
}

#[test]
fn full_width_parentheses_and_spaces_are_normalized() {
    assert_eq!(normalize_operator_name(" アーミヤ（前衛） "), "アーミヤ(前衛)");
    assert_eq!(normalize_operator_name("ケルシー"), "ケルシー");
}

#[test]
fn exact_atk_scale_is_chosen_and_put_first() {
    let keys = vec![s("damage_scale"), s("atk_scale"), s("duration"), s("a_scale")];
    let (chosen, order) = multiplier_keys(&keys);
    assert_eq!(chosen, Some(s("atk_scale")));
    assert_eq!(order, vec![s("atk_scale"), s("a_scale"), s("damage_scale")]);
}

#[test]
fn first_damage_scale_in_name_order_is_chosen() {
    let keys = vec![s("attack@s2.magic_atk_scale"), s("attack@s2.atk_scale"), s("hp_ratio")];
    let (chosen, order) = multiplier_keys(&keys);
    assert_eq!(chosen, Some(s("attack@s2.atk_scale")));
    assert_eq!(order, vec![s("attack@s2.atk_scale"), s("attack@s2.magic_atk_scale")]);
}

#[test]
fn no_scale_key_chooses_nothing() {
    let keys = vec![s("atk"), s("duration")];
    let (chosen, order) = multiplier_keys(&keys);
    assert_eq!(chosen, None);
    assert!(order.is_empty());
    let keys = vec![s("range_scale"), s("hp_scale")];
    let (chosen, order) = multiplier_keys(&keys);
    assert_eq!(chosen, None);
    assert_eq!(order, vec![s("hp_scale"), s("range_scale")]);
}

#[test]
fn override_values_are_marked_manual() {
    let a: Valued<u32> = Valued::from_override(Some(3), 1);
    assert_eq!(a.value, 3);
    assert_eq!(a.source, ValueSource::Manual);
    let b: Valued<u32> = Valued::from_override(None, 1);
    assert_eq!(b.value, 1);
    assert_eq!(b.source, ValueSource::Auto);
    assert_eq!(Valued::auto(2u8).source, ValueSource::Auto);
    assert_eq!(Valued::manual(2u8).source, ValueSource::Manual);
}

#[test]
fn damage_types_are_read_from_names_and_true() {
    assert_eq!(damage_type_from_str("physical"), Some(DamageType::Physical));
    assert_eq!(damage_type_from_str("arts"), Some(DamageType::Arts));
    assert_eq!(damage_type_from_str("true"), Some(DamageType::True));
    assert_eq!(damage_type_from_str("magic"), None);
    assert_eq!(damage_type_from_bool(true), Some(DamageType::True));
    assert_eq!(damage_type_from_bool(false), None);
}
