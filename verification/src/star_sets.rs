//! Sets of rarities.
use vstd::prelude::*;
use std::collections::BTreeSet;

verus! {

/// Adds `k` to the set.
pub fn set_insert(s: &mut BTreeSet<u8>, k: u8)
    ensures
        final(s)@ == old(s)@.insert(k),
{
    broadcast use vstd::laws_cmp::group_laws_cmp;

    s.insert(k);
}

/// Whether `k` is in the set.
pub fn set_contains(s: &BTreeSet<u8>, k: u8) -> (r: bool)
    ensures
        r == s@.contains(k),
{
    broadcast use vstd::laws_cmp::group_laws_cmp;
    broadcast use vstd::std_specs::btree::group_btree_axioms;

    s.contains(&k)
}

} // verus!
