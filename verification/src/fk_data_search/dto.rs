//! Results of a frame-kill search.
use vstd::prelude::*;
use indexmap::IndexMap;
use crate::outer_source::fk_data::string_map_entries;

verus! {

/// The outcome of a search.
pub enum FkSearchResult {
    /// The sheet has no such operator.
    OperatorNotFound,
    /// No skill was given and the operator has several rows: skill as
    /// written to its display name.
    NeedsSkillSelection { choices: IndexMap<String, String> },
    /// The given skill has no row: every row's skill with its name.
    SkillNotFound { candidates: Vec<SkillCandidate> },
    /// The row found.
    Found(FkSkillView),
}

/// A skill the operator has a row for.
pub struct SkillCandidate {
    pub skill_num: String,
    pub skill_name: String,
}

/// The row found, for display.
pub struct FkSkillView {
    /// The skill's name, "" when it cannot be resolved.
    pub skill_name: String,
    /// The skill as the user gave it.
    pub requested_skill_num: String,
    pub fk_num: String,
    pub fk_err: String,
    pub detail: String,
}

/// `FkSearchResult` as plain values.
pub enum FkSearchResultV {
    OperatorNotFound,
    NeedsSkillSelection(Seq<(Seq<char>, Seq<char>)>),
    SkillNotFound(Seq<(Seq<char>, Seq<char>)>),
    /// (skill name, requested skill, fk number, fk error, detail)
    Found(Seq<char>, Seq<char>, Seq<char>, Seq<char>, Seq<char>),
}

impl View for FkSearchResult {
    type V = FkSearchResultV;

    open spec fn view(&self) -> FkSearchResultV {
        match self {
            FkSearchResult::OperatorNotFound => FkSearchResultV::OperatorNotFound,
            FkSearchResult::NeedsSkillSelection { choices } => FkSearchResultV::NeedsSkillSelection(
                string_map_entries(*choices),
            ),
            FkSearchResult::SkillNotFound { candidates } => FkSearchResultV::SkillNotFound(
                candidates@.map_values(|c: SkillCandidate| (c.skill_num@, c.skill_name@)),
            ),
            FkSearchResult::Found(v) => FkSearchResultV::Found(
                v.skill_name@,
                v.requested_skill_num@,
                v.fk_num@,
                v.fk_err@,
                v.detail@,
            ),
        }
    }
}

} // verus!
