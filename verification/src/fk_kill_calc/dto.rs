//! Values of the frame-kill catalog and where they come from.
use vstd::prelude::*;

verus! {

/// Where a value comes from: the game data as it is, or a manual override.
#[derive(Clone, Copy, Debug, PartialEq, Eq, Structural)]
pub enum ValueSource {
    Auto,
    Manual,
}

/// A value with its source.
#[derive(Clone, Debug)]
pub struct Valued<T> {
    pub value: T,
    pub source: ValueSource,
}

impl<T> Valued<T> {
    /// A value taken from the game data.
    pub fn auto(value: T) -> (r: Self)
        ensures
            r.value == value,
            r.source == ValueSource::Auto,
    {
        Valued { value, source: ValueSource::Auto }
    }

    /// A value set by hand.
    pub fn manual(value: T) -> (r: Self)
        ensures
            r.value == value,
            r.source == ValueSource::Manual,
    {
        Valued { value, source: ValueSource::Manual }
    }

    /// The override when there is one (manual), else `default` (auto).
    pub fn from_override(override_value: Option<T>, default: T) -> (r: Self)
        ensures
            match override_value {
                Some(v) => r.value == v && r.source == ValueSource::Manual,
                None => r.value == default && r.source == ValueSource::Auto,
            },
    {
        match override_value {
            Some(v) => Self::manual(v),
            None => Self::auto(default),
        }
    }
}

/// The damage type of a skill.
#[derive(Clone, Copy, Debug, PartialEq, Eq, Structural)]
pub enum DamageType {
    Physical,
    Arts,
    True,
}

/// The damage type written as `physical`, `arts` or `true`.
pub open spec fn damage_type_of_name(s: Seq<char>) -> Option<DamageType> {
    if s == "physical"@ {
        Some(DamageType::Physical)
    } else if s == "arts"@ {
        Some(DamageType::Arts)
    } else if s == "true"@ {
        Some(DamageType::True)
    } else {
        None
    }
}

/// Reads a damage type from its name; `None` for any other text.
pub fn damage_type_from_str(s: &str) -> (r: Option<DamageType>)
    ensures
        r == damage_type_of_name(s@),
{
    if crate::text::str_eq(s, "physical") {
        Some(DamageType::Physical)
    } else if crate::text::str_eq(s, "arts") {
        Some(DamageType::Arts)
    } else if crate::text::str_eq(s, "true") {
        Some(DamageType::True)
    } else {
        None
    }
}

/// Reads a damage type written as a bare boolean: `true` is true damage,
/// `false` is refused.
pub fn damage_type_from_bool(b: bool) -> (r: Option<DamageType>)
    ensures
        r == (if b {
            Some(DamageType::True)
        } else {
            None
        }),
{
    if b {
        Some(DamageType::True)
    } else {
        None
    }
}

/// A buff adds a fixed amount or a share of ATK.
#[derive(Clone, Copy, Debug, PartialEq, Eq, Structural)]
pub enum BufferKind {
    Pct,
    Flat,
}

/// Whom a buff applies to.
#[derive(Clone, Debug)]
pub enum BufferScope {
    /// The operator itself.
    Individual,
    /// Operators that have one of the tags.
    Conditional { target_tags: Vec<String> },
}

} // verus!
