//! Mainland-to-Japanese operator names, built once at start-up.
use vstd::prelude::*;
use crate::outer_source::names::{
    build_cn_to_ja, cn_to_ja_spec, char_entry_view, lookup, CharEntry, StrMap,
};

verus! {

/// Mainland operator names to Japanese names.
pub struct OperatorNames {
    cn_to_ja: StrMap,
}

impl OperatorNames {
    /// The name table.
    pub closed spec fn table(&self) -> Seq<(Seq<char>, Seq<char>)> {
        self.cn_to_ja@
    }

    /// Names built from the character tables (see `cn_to_ja_spec`).
    pub fn from_tables(cn: &Vec<CharEntry>, jp: &StrMap, custom: &StrMap) -> (r: OperatorNames)
        ensures
            r.table() == cn_to_ja_spec(cn@.map_values(|e: CharEntry| char_entry_view(e)), jp@, custom@),
    {
        OperatorNames { cn_to_ja: build_cn_to_ja(cn, jp, custom) }
    }

    /// Names as loaded at start-up: built from the character tables when
    /// they could be fetched (`tables` holds the mainland entries and the
    /// Japanese names by key), else an empty table, so that every name is
    /// shown as it is.
    pub fn from_fetch(tables: Option<(&Vec<CharEntry>, &StrMap)>, custom: &StrMap) -> (r: OperatorNames)
        ensures
            match tables {
                Some((cn, jp)) => r.table() == cn_to_ja_spec(
                    cn@.map_values(|e: CharEntry| char_entry_view(e)),
                    jp@,
                    custom@,
                ),
                None => r.table() == Seq::<(Seq<char>, Seq<char>)>::empty(),
            },
    {
        match tables {
            Some((cn, jp)) => OperatorNames { cn_to_ja: build_cn_to_ja(cn, jp, custom) },
            None => OperatorNames { cn_to_ja: StrMap::new() },
        }
    }

    /// The Japanese name of a mainland name; the mainland name itself when
    /// there is none.
    pub fn to_ja<'a>(&'a self, cn_name: &'a str) -> (r: &'a str)
        ensures
            r@ == match lookup(self.table(), cn_name@) {
                Some(j) => j,
                None => cn_name@,
            },
    {
        match self.cn_to_ja.get(cn_name) {
            Some(j) => j.as_str(),
            None => cn_name,
        }
    }

    /// Names with an empty table: every name stays as it is.
    pub fn empty_for_test() -> (r: OperatorNames)
        ensures
            r.table() == Seq::<(Seq<char>, Seq<char>)>::empty(),
    {
        OperatorNames { cn_to_ja: StrMap::new() }
    }
}

} // verus!
