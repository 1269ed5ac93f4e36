//! A table of stage categories kept in ascending order of name, each name
//! once; setting a name again replaces its category.
use vstd::prelude::*;
use crate::fk_kill_calc::catalog::{
    lemma_text_le_antisymmetric, lemma_text_le_total, lemma_text_le_transitive, text_le,
};
use crate::text::{str_eq, views};
use crate::recruit::model::clone_strings;

verus! {

/// One stage category: its stages, its items, its main item, its Japanese
/// name, and its sub-items with their order.
#[derive(Debug)]
pub struct StageCategoryInfo {
    pub stages: Vec<String>,
    pub items: Vec<String>,
    pub main_item: String,
    pub to_ja: String,
    pub sub_item: Vec<String>,
    pub sub_order: Vec<i64>,
}

/// `StageCategoryInfo` as plain values.
pub type InfoV = (Seq<Seq<char>>, Seq<Seq<char>>, Seq<char>, Seq<char>, Seq<Seq<char>>, Seq<i64>);

impl View for StageCategoryInfo {
    type V = InfoV;

    open spec fn view(&self) -> InfoV {
        (
            views(self.stages@),
            views(self.items@),
            self.main_item@,
            self.to_ja@,
            views(self.sub_item@),
            self.sub_order@,
        )
    }
}

impl StageCategoryInfo {
    /// A copy.
    pub fn copy(&self) -> (r: StageCategoryInfo)
        ensures
            r@ == self@,
    {
        let mut order: Vec<i64> = Vec::new();
        let n = self.sub_order.len();
        for i in 0..n
            invariant
                n == self.sub_order@.len(),
                order@ == self.sub_order@.take(i as int),
        {
            order.push(self.sub_order[i]);
            assert(order@ =~= self.sub_order@.take(i + 1));
        }
        assert(self.sub_order@.take(n as int) =~= self.sub_order@);
        StageCategoryInfo {
            stages: clone_strings(&self.stages),
            items: clone_strings(&self.items),
            main_item: self.main_item.clone(),
            to_ja: self.to_ja.clone(),
            sub_item: clone_strings(&self.sub_item),
            sub_order: order,
        }
    }
}

/// `a` comes strictly before `b`.
pub open spec fn text_lt(a: Seq<char>, b: Seq<char>) -> bool {
    text_le(a, b) && a != b
}

/// The table with `k` set to `v`: an entry of that name is replaced in
/// place, otherwise the entry goes before the first larger name.
pub open spec fn table_insert(t: Seq<(Seq<char>, InfoV)>, k: Seq<char>, v: InfoV) -> Seq<(Seq<char>, InfoV)>
    decreases t.len(),
{
    if t.len() == 0 {
        seq![(k, v)]
    } else if t[0].0 == k {
        t.update(0, (k, v))
    } else if text_lt(k, t[0].0) {
        seq![(k, v)] + t
    } else {
        seq![t[0]] + table_insert(t.drop_first(), k, v)
    }
}

/// The entries set in order.
pub open spec fn table_insert_all(t: Seq<(Seq<char>, InfoV)>, es: Seq<(Seq<char>, InfoV)>) -> Seq<
    (Seq<char>, InfoV),
>
    decreases es.len(),
{
    if es.len() == 0 {
        t
    } else {
        table_insert(table_insert_all(t, es.drop_last()), es.last().0, es.last().1)
    }
}

/// The names are in strictly ascending order.
pub open spec fn strictly_sorted(t: Seq<(Seq<char>, InfoV)>) -> bool {
    forall|i: int, j: int| 0 <= i < j < t.len() ==> text_lt(#[trigger] t[i].0, #[trigger] t[j].0)
}

/// The category of the first entry called `k`.
pub open spec fn table_get(t: Seq<(Seq<char>, InfoV)>, k: Seq<char>) -> Option<InfoV>
    decreases t.len(),
{
    if t.len() == 0 {
        None
    } else if t[0].0 == k {
        Some(t[0].1)
    } else {
        table_get(t.drop_first(), k)
    }
}

/// The names of the table.
pub open spec fn table_keys(t: Seq<(Seq<char>, InfoV)>) -> Set<Seq<char>> {
    Set::new(|x: Seq<char>| exists|i: int| 0 <= i < t.len() && t[i].0 == x)
}

/// Strict text order is transitive.
proof fn lemma_text_lt_transitive(a: Seq<char>, b: Seq<char>, c: Seq<char>)
    requires
        text_lt(a, b),
        text_lt(b, c),
    ensures
        text_lt(a, c),
{
    lemma_text_le_transitive(a, b, c);
    if a == c {
        lemma_text_le_antisymmetric(a, b);
    }
}

/// Reading a name just set gives the category set; every other name reads
/// as before.
pub proof fn lemma_table_get_after_insert(
    t: Seq<(Seq<char>, InfoV)>,
    k: Seq<char>,
    v: InfoV,
    other: Seq<char>,
)
    ensures
        table_get(table_insert(t, k, v), k) == Some(v),
        other != k ==> table_get(table_insert(t, k, v), other) == table_get(t, other),
    decreases t.len(),
{
    if t.len() > 0 {
        let r = table_insert(t, k, v);
        if t[0].0 == k {
            assert(r.drop_first() =~= t.drop_first());
            assert(r[0] == (k, v));
            if other != k {
                assert(table_get(r, other) == table_get(r.drop_first(), other));
                assert(table_get(t, other) == table_get(t.drop_first(), other));
            }
        } else if text_lt(k, t[0].0) {
            assert(r.drop_first() =~= t);
            assert(r[0] == (k, v));
            if other != k {
                assert(table_get(r, other) == table_get(r.drop_first(), other));
            }
        } else {
            lemma_table_get_after_insert(t.drop_first(), k, v, other);
            assert(r.drop_first() =~= table_insert(t.drop_first(), k, v));
            assert(r[0] == t[0]);
            if other != k && t[0].0 != other {
                assert(table_get(r, other) == table_get(r.drop_first(), other));
                assert(table_get(t, other) == table_get(t.drop_first(), other));
            }
        }
    } else {
        let r = table_insert(t, k, v);
        assert(r.drop_first() =~= Seq::<(Seq<char>, InfoV)>::empty());
        assert(table_get(r, other) == table_get(r.drop_first(), other) || other == k);
    }
}

/// Setting a name keeps the names in strictly ascending order and adds
/// exactly that name.
pub proof fn lemma_table_insert_sorted(t: Seq<(Seq<char>, InfoV)>, k: Seq<char>, v: InfoV)
    requires
        strictly_sorted(t),
    ensures
        strictly_sorted(table_insert(t, k, v)),
        table_keys(table_insert(t, k, v)) == table_keys(t).insert(k),
    decreases t.len(),
{
    let r = table_insert(t, k, v);
    if t.len() == 0 {
        assert(table_keys(r) =~= table_keys(t).insert(k)) by {
            assert(r[0].0 == k);
        }
    } else if t[0].0 == k {
        assert forall|i: int, j: int| 0 <= i < j < r.len() implies text_lt(#[trigger] r[i].0, #[trigger] r[j].0) by {
            assert(r[i].0 == t[i].0 && r[j].0 == t[j].0);
        }
        assert(table_keys(r) =~= table_keys(t).insert(k)) by {
            assert forall|x: Seq<char>| table_keys(t).insert(k).contains(x) implies table_keys(r).contains(x) by {
                if x == k {
                    assert(r[0].0 == x);
                } else {
                    let i = choose|i: int| 0 <= i < t.len() && t[i].0 == x;
                    assert(r[i].0 == x);
                }
            }
            assert forall|x: Seq<char>| table_keys(r).contains(x) implies table_keys(t).insert(k).contains(x) by {
                let i = choose|i: int| 0 <= i < r.len() && r[i].0 == x;
                assert(t[i].0 == x || i == 0);
            }
        }
    } else if text_lt(k, t[0].0) {
        assert forall|i: int, j: int| 0 <= i < j < r.len() implies text_lt(#[trigger] r[i].0, #[trigger] r[j].0) by {
            if i == 0 {
                assert(r[j].0 == t[j - 1].0);
                if j - 1 > 0 {
                    assert(text_lt(t[0].0, t[j - 1].0));
                    lemma_text_lt_transitive(k, t[0].0, t[j - 1].0);
                }
            } else {
                assert(r[i].0 == t[i - 1].0 && r[j].0 == t[j - 1].0);
            }
        }
        assert(table_keys(r) =~= table_keys(t).insert(k)) by {
            assert forall|x: Seq<char>| table_keys(t).insert(k).contains(x) implies table_keys(r).contains(x) by {
                if x == k {
                    assert(r[0].0 == x);
                } else {
                    let i = choose|i: int| 0 <= i < t.len() && t[i].0 == x;
                    assert(r[i + 1].0 == x);
                }
            }
            assert forall|x: Seq<char>| table_keys(r).contains(x) implies table_keys(t).insert(k).contains(x) by {
                let i = choose|i: int| 0 <= i < r.len() && r[i].0 == x;
                if i > 0 {
                    assert(t[i - 1].0 == x);
                }
            }
        }
    } else {
        let d = t.drop_first();
        assert(strictly_sorted(d)) by {
            assert forall|i: int, j: int| 0 <= i < j < d.len() implies text_lt(#[trigger] d[i].0, #[trigger] d[j].0) by {
                assert(d[i] == t[i + 1] && d[j] == t[j + 1]);
            }
        }
        lemma_table_insert_sorted(d, k, v);
        let rest = table_insert(d, k, v);
        assert(r == seq![t[0]] + rest);
        lemma_text_le_total(k, t[0].0);
        assert(text_lt(t[0].0, k));
        assert forall|x: Seq<char>| table_keys(rest).contains(x) implies text_lt(t[0].0, x) by {
            assert(table_keys(d).insert(k).contains(x));
            if x != k {
                let i = choose|i: int| 0 <= i < d.len() && d[i].0 == x;
                assert(d[i] == t[i + 1]);
            }
        }
        assert forall|i: int, j: int| 0 <= i < j < r.len() implies text_lt(#[trigger] r[i].0, #[trigger] r[j].0) by {
            if i == 0 {
                assert(r[j] == rest[j - 1]);
                assert(table_keys(rest).contains(rest[j - 1].0));
            } else {
                assert(r[i] == rest[i - 1] && r[j] == rest[j - 1]);
            }
        }
        assert(table_keys(r) =~= table_keys(t).insert(k)) by {
            assert forall|x: Seq<char>| table_keys(t).insert(k).contains(x) implies table_keys(r).contains(x) by {
                if x == t[0].0 {
                    assert(r[0].0 == x);
                } else {
                    if x != k {
                        let i = choose|i: int| 0 <= i < t.len() && t[i].0 == x;
                        assert(i > 0);
                        assert(d[i - 1].0 == x);
                    }
                    assert(table_keys(d).insert(k).contains(x));
                    assert(table_keys(rest).contains(x));
                    let q = choose|q: int| 0 <= q < rest.len() && rest[q].0 == x;
                    assert(r[q + 1].0 == x);
                }
            }
            assert forall|x: Seq<char>| table_keys(r).contains(x) implies table_keys(t).insert(k).contains(x) by {
                let i = choose|i: int| 0 <= i < r.len() && r[i].0 == x;
                if i > 0 {
                    assert(table_keys(rest).contains(rest[i - 1].0));
                    assert(table_keys(d).insert(k).contains(x));
                    if x != k {
                        let q = choose|q: int| 0 <= q < d.len() && d[q].0 == x;
                        assert(t[q + 1].0 == x);
                    }
                }
            }
        }
    }
}

/// Setting entries one after another keeps the names strictly ascending.
pub proof fn lemma_table_insert_all_sorted(t: Seq<(Seq<char>, InfoV)>, es: Seq<(Seq<char>, InfoV)>)
    requires
        strictly_sorted(t),
    ensures
        strictly_sorted(table_insert_all(t, es)),
    decreases es.len(),
{
    if es.len() > 0 {
        lemma_table_insert_all_sorted(t, es.drop_last());
        lemma_table_insert_sorted(table_insert_all(t, es.drop_last()), es.last().0, es.last().1);
    }
}

/// Stage categories by name.
pub struct CategoryTable {
    entries: Vec<(String, StageCategoryInfo)>,
}

impl View for CategoryTable {
    type V = Seq<(Seq<char>, InfoV)>;

    closed spec fn view(&self) -> Seq<(Seq<char>, InfoV)> {
        self.entries@.map_values(|e: (String, StageCategoryInfo)| (e.0@, e.1@))
    }
}

/// Before position `i` every name differs from `k` and does not come after it.
proof fn lemma_table_insert_skip(t: Seq<(Seq<char>, InfoV)>, k: Seq<char>, v: InfoV, i: int)
    requires
        0 <= i <= t.len(),
        forall|j: int| 0 <= j < i ==> #[trigger] t[j].0 != k && !text_lt(k, t[j].0),
    ensures
        table_insert(t, k, v) == t.take(i) + table_insert(t.skip(i), k, v),
    decreases i,
{
    if i == 0 {
        assert(t.take(0) + t.skip(0) =~= t);
        assert(t.skip(0) =~= t);
        assert(t.take(0) + table_insert(t, k, v) =~= table_insert(t, k, v));
    } else {
        let d = t.drop_first();
        assert forall|j: int| 0 <= j < i - 1 implies #[trigger] d[j].0 != k && !text_lt(k, d[j].0) by {
            assert(d[j] == t[j + 1]);
        }
        lemma_table_insert_skip(d, k, v, i - 1);
        assert(t[0].0 != k && !text_lt(k, t[0].0));
        assert(d.skip(i - 1) =~= t.skip(i));
        assert(seq![t[0]] + d.take(i - 1) =~= t.take(i));
        assert(seq![t[0]] + (d.take(i - 1) + table_insert(t.skip(i), k, v)) =~= t.take(i)
            + table_insert(t.skip(i), k, v));
    }
}

impl CategoryTable {
    /// The empty table.
    pub fn new() -> (r: CategoryTable)
        ensures
            r@ == Seq::<(Seq<char>, InfoV)>::empty(),
    {
        let r = CategoryTable { entries: Vec::new() };
        assert(r@ =~= Seq::<(Seq<char>, InfoV)>::empty());
        r
    }

    /// Sets `k` to `v` (see `table_insert`).
    pub fn insert(&mut self, k: String, v: StageCategoryInfo)
        ensures
            final(self)@ == table_insert(old(self)@, k@, v@),
    {
        let ghost t = self@;
        let n = self.entries.len();
        let mut i: usize = 0;
        while i < n && !str_eq(self.entries[i].0.as_str(), k.as_str())
            && !crate::fk_kill_calc::catalog::text_le_exec(k.as_str(), self.entries[i].0.as_str())
            invariant
                n == self.entries@.len(),
                t == self@,
                i <= n,
                forall|j: int| 0 <= j < i ==> #[trigger] t[j].0 != k@ && !text_lt(k@, t[j].0),
            decreases n - i,
        {
            assert(t[i as int].0 == self.entries@[i as int].0@);
            i = i + 1;
        }
        proof {
            lemma_table_insert_skip(t, k@, v@, i as int);
        }
        let ghost kv = (k@, v@);
        if i == n {
            self.entries.push((k, v));
            assert(t.skip(n as int) =~= Seq::<(Seq<char>, InfoV)>::empty());
            assert(t.take(n as int) =~= t);
            assert(self@ =~= t.push(kv));
            assert(t.take(n as int) + seq![kv] =~= t.push(kv));
        } else if str_eq(self.entries[i].0.as_str(), k.as_str()) {
            assert(t.skip(i as int)[0] == t[i as int]);
            self.entries.set(i, (k, v));
            assert(self@ =~= t.take(i as int) + t.skip(i as int).update(0, kv));
        } else {
            assert(t.skip(i as int)[0] == t[i as int]);
            assert(t[i as int].0 == self.entries@[i as int].0@);
            assert(text_le(k@, t[i as int].0));
            self.entries.insert(i, (k, v));
            assert(self@ =~= t.take(i as int) + (seq![kv] + t.skip(i as int)));
        }
    }

    /// Sets each of `entries` in order.
    pub fn from_entries(entries: Vec<(String, StageCategoryInfo)>) -> (r: CategoryTable)
        ensures
            r@ == table_insert_all(
                Seq::<(Seq<char>, InfoV)>::empty(),
                entries@.map_values(|e: (String, StageCategoryInfo)| (e.0@, e.1@)),
            ),
    {
        let ghost ev = entries@.map_values(|e: (String, StageCategoryInfo)| (e.0@, e.1@));
        let mut t = CategoryTable::new();
        assert(ev.take(0) =~= Seq::<(Seq<char>, InfoV)>::empty());
        for e in it: entries
            invariant
                it.seq() == entries@,
                ev == entries@.map_values(|e: (String, StageCategoryInfo)| (e.0@, e.1@)),
                t@ == table_insert_all(Seq::<(Seq<char>, InfoV)>::empty(), ev.take(it.index() as int)),
        {
            let ghost i = it.index();
            assert(ev.take(i + 1).drop_last() =~= ev.take(i as int));
            assert(ev.take(i + 1).last() == (e.0@, e.1@));
            let (k, v) = e;
            t.insert(k, v);
        }
        assert(ev.take(ev.len() as int) =~= ev);
        t
    }

    /// A copy.
    pub fn copy(&self) -> (r: CategoryTable)
        ensures
            r@ == self@,
    {
        let mut out: Vec<(String, StageCategoryInfo)> = Vec::new();
        let n = self.entries.len();
        for i in 0..n
            invariant
                n == self.entries@.len(),
                out@.map_values(|e: (String, StageCategoryInfo)| (e.0@, e.1@)) == self@.take(i as int),
        {
            let ghost before = out@.map_values(|e: (String, StageCategoryInfo)| (e.0@, e.1@));
            let e = &self.entries[i];
            out.push((e.0.clone(), e.1.copy()));
            assert(out@.map_values(|e: (String, StageCategoryInfo)| (e.0@, e.1@)) =~= before.push(
                self@[i as int],
            ));
            assert(self@.take(i + 1) =~= self@.take(i as int).push(self@[i as int]));
        }
        assert(self@.take(n as int) =~= self@);
        let r = CategoryTable { entries: out };
        assert(r@ =~= self@);
        r
    }

    /// The entries, in order of name.
    pub fn entries(&self) -> (r: &Vec<(String, StageCategoryInfo)>)
        ensures
            r@.map_values(|e: (String, StageCategoryInfo)| (e.0@, e.1@)) == self@,
    {
        &self.entries
    }

    /// The category called `k`.
    pub fn get(&self, k: &str) -> (r: Option<&StageCategoryInfo>)
        ensures
            r matches Some(x) ==> exists|i: int|
                0 <= i < self@.len() && self@[i].0 == k@ && #[trigger] self@[i].1 == x@,
            r is None ==> forall|i: int| 0 <= i < self@.len() ==> #[trigger] self@[i].0 != k@,
    {
        let n = self.entries.len();
        for i in 0..n
            invariant
                n == self.entries@.len(),
                forall|j: int| 0 <= j < i ==> #[trigger] self@[j].0 != k@,
        {
            assert(self@[i as int] == (self.entries@[i as int].0@, self.entries@[i as int].1@));
            if str_eq(self.entries[i].0.as_str(), k) {
                assert(self@[i as int].1 == self.entries@[i as int].1@);
                return Some(&self.entries[i].1);
            }
        }
        None
    }
}

} // verus!
