//! The data a frame-kill search reads, shared as snapshots.
use vstd::prelude::*;
use std::sync::Arc;
use crate::outer_source::fk_data::{sheet_entries, FkSheetData};
use crate::outer_source::operator_data::OperatorData;
use crate::outer_source::skill_data::SkillData;
use crate::text::views;
use super::dto::FkSearchResult;
use super::search::{autocomplete, first_matching, resolve, resolve_spec, skill_ids_by_name};
use crate::outer_source::fk_data::FkRowV;

verus! {

/// The frame-kill sheet, the cost data and the skill names, as one search
/// sees them.
pub struct FkDataView<M> {
    pub fk_data: Arc<FkSheetData>,
    pub operator_data: Arc<OperatorData<M>>,
    pub skill_data: Arc<SkillData>,
}

impl<M> FkDataView<M> {
    /// Resolves a frame-kill row (see `resolve`).
    pub fn search(&self, operator_name: &str, skill_num: &str) -> (r: FkSearchResult)
        ensures
            r@ == resolve_spec(
                sheet_entries((*self.fk_data).by_operator),
                skill_ids_by_name((*self.operator_data)@, operator_name@),
                (*self.skill_data)@,
                operator_name@,
                skill_num@,
            ),
    {
        resolve(&self.fk_data, &self.operator_data, &self.skill_data, operator_name, skill_num)
    }

    /// The first `limit` operator names of the sheet that contain `partial`
    /// (see `autocomplete`).
    pub fn autocomplete(&self, partial: &str, limit: usize) -> (r: Vec<String>)
        ensures
            views(r@) == first_matching(
                sheet_entries((*self.fk_data).by_operator).map_values(|e: (Seq<char>, Seq<FkRowV>)| e.0),
                partial@,
                limit as nat,
            ),
    {
        autocomplete(&self.fk_data, partial, limit)
    }
}

} // verus!
