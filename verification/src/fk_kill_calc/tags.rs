//! Tags and damage types guessed from an operator's profession, position
//! and faction.
use vstd::prelude::*;
use crate::text::{str_eq, to_owned, views};
use super::dto::DamageType;

verus! {

/// The tag of skills that use ammunition.
pub const AMMO_SKILL_TAG: &'static str = "弾薬スキル";

/// The Japanese tag of a profession id.
pub open spec fn profession_tag(p: Seq<char>) -> Option<Seq<char>> {
    if p == "PIONEER"@ {
        Some("先鋒"@)
    } else if p == "WARRIOR"@ {
        Some("前衛"@)
    } else if p == "TANK"@ {
        Some("重装"@)
    } else if p == "SNIPER"@ {
        Some("狙撃"@)
    } else if p == "CASTER"@ {
        Some("術師"@)
    } else if p == "MEDIC"@ {
        Some("医療"@)
    } else if p == "SUPPORT"@ {
        Some("補助"@)
    } else if p == "SPECIAL"@ {
        Some("特殊"@)
    } else {
        None
    }
}

/// The tag of a faction id, for the factions that buffs refer to.
pub open spec fn faction_tag(n: Seq<char>) -> Option<Seq<char>> {
    if n == "laterano"@ {
        Some("ラテラーノ"@)
    } else {
        None
    }
}

/// The one-element sequence of a present value, else the empty one.
pub open spec fn opt_seq(o: Option<Seq<char>>) -> Seq<Seq<char>> {
    match o {
        Some(x) => seq![x],
        None => seq![],
    }
}

/// Every tag an entry can carry: close range, ammunition skill, the
/// professions, the factions.
pub open spec fn vocabulary() -> Seq<Seq<char>> {
    seq![
        "近距離"@,
        "弾薬スキル"@,
        "先鋒"@,
        "前衛"@,
        "重装"@,
        "狙撃"@,
        "術師"@,
        "医療"@,
        "補助"@,
        "特殊"@,
        "ラテラーノ"@,
    ]
}

/// The tags of an operator: close range for a melee position, then the
/// profession tag, then the faction tag, each where there is one.
pub open spec fn operator_tags(profession: Seq<char>, position: Seq<char>, nation_id: Seq<char>) -> Seq<Seq<char>> {
    (if position == "MELEE"@ {
        seq!["近距離"@]
    } else {
        seq![]
    }) + opt_seq(profession_tag(profession)) + opt_seq(faction_tag(nation_id))
}

/// The guessed damage type: arts for casters, medics and supporters,
/// physical otherwise.
pub open spec fn damage_guess(profession: Seq<char>) -> DamageType {
    if profession == "CASTER"@ || profession == "MEDIC"@ || profession == "SUPPORT"@ {
        DamageType::Arts
    } else {
        DamageType::Physical
    }
}

/// Every tag an entry can carry.
pub fn tag_vocabulary() -> (r: Vec<&'static str>)
    ensures
        r@.map_values(|s: &str| s@) == vocabulary(),
{
    let mut v: Vec<&'static str> = Vec::new();
    v.push("近距離");
    v.push(AMMO_SKILL_TAG);
    v.push("先鋒");
    v.push("前衛");
    v.push("重装");
    v.push("狙撃");
    v.push("術師");
    v.push("医療");
    v.push("補助");
    v.push("特殊");
    v.push("ラテラーノ");
    assert(v@.map_values(|s: &str| s@) =~= vocabulary());
    v
}

/// The tag of a faction id, if buffs refer to that faction.
pub fn faction_tag_for(nation_id: &str) -> (r: Option<&'static str>)
    ensures
        match faction_tag(nation_id@) {
            Some(t) => r matches Some(x) && x@ == t,
            None => r is None,
        },
{
    if str_eq(nation_id, "laterano") {
        Some("ラテラーノ")
    } else {
        None
    }
}

/// The tag of a profession id, if it is one.
pub(crate) fn profession_tag_for(profession: &str) -> (r: Option<&'static str>)
    ensures
        match profession_tag(profession@) {
            Some(t) => r matches Some(x) && x@ == t,
            None => r is None,
        },
{
    if str_eq(profession, "PIONEER") {
        Some("先鋒")
    } else if str_eq(profession, "WARRIOR") {
        Some("前衛")
    } else if str_eq(profession, "TANK") {
        Some("重装")
    } else if str_eq(profession, "SNIPER") {
        Some("狙撃")
    } else if str_eq(profession, "CASTER") {
        Some("術師")
    } else if str_eq(profession, "MEDIC") {
        Some("医療")
    } else if str_eq(profession, "SUPPORT") {
        Some("補助")
    } else if str_eq(profession, "SPECIAL") {
        Some("特殊")
    } else {
        None
    }
}

/// The tags of an operator (see `operator_tags`).
pub fn tags_for(profession: &str, position: &str, nation_id: &str) -> (r: Vec<String>)
    ensures
        views(r@) == operator_tags(profession@, position@, nation_id@),
{
    let mut tags: Vec<String> = Vec::new();
    let ghost a = if position@ == "MELEE"@ {
        seq!["近距離"@]
    } else {
        Seq::<Seq<char>>::empty()
    };
    if str_eq(position, "MELEE") {
        tags.push(to_owned("近距離"));
    }
    assert(views(tags@) =~= a);
    match profession_tag_for(profession) {
        Some(t) => {
            tags.push(to_owned(t));
        },
        None => {},
    }
    assert(views(tags@) =~= a + opt_seq(profession_tag(profession@)));
    let ghost b = views(tags@);
    match faction_tag_for(nation_id) {
        Some(t) => {
            tags.push(to_owned(t));
        },
        None => {},
    }
    assert(views(tags@) =~= b + opt_seq(faction_tag(nation_id@)));
    tags
}

/// The guessed damage type of a profession (see `damage_guess`).
pub fn guess_damage_type(profession: &str) -> (r: DamageType)
    ensures
        r == damage_guess(profession@),
{
    if str_eq(profession, "CASTER") || str_eq(profession, "MEDIC") || str_eq(profession, "SUPPORT") {
        DamageType::Arts
    } else {
        DamageType::Physical
    }
}

} // verus!
