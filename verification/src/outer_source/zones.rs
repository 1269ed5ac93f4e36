//! Zone ids to Japanese zone names.
use vstd::prelude::*;
use super::names::{lookup, StrMap};

verus! {

/// Zone ids to Japanese zone names.
pub struct Zones {
    id_to_ja: StrMap,
}

impl Zones {
    /// The name table.
    pub closed spec fn table(&self) -> Seq<(Seq<char>, Seq<char>)> {
        self.id_to_ja@
    }

    /// Zones with the given names.
    pub fn new(id_to_ja: StrMap) -> (r: Zones)
        ensures
            r.table() == id_to_ja@,
    {
        Zones { id_to_ja }
    }

    /// The Japanese name of a zone, or "Missing".
    pub fn get_str(&self, id: &str) -> (r: &str)
        ensures
            r@ == match lookup(self.table(), id@) {
                Some(n) => n,
                None => "Missing"@,
            },
    {
        match self.id_to_ja.get(id) {
            Some(n) => n.as_str(),
            None => "Missing",
        }
    }
}

} // verus!
