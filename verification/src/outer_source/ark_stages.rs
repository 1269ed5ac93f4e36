//! Raw stage data of the drop statistics service.
use vstd::prelude::*;

verus! {

/// One kind of drop of a stage.
#[derive(Clone, Debug)]
pub struct RawDropInfo {
    pub item_id: Option<String>,
    pub drop_type: String,
}

} // verus!
