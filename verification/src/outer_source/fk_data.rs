//! The frame-kill sheet: its rows by operator name, in sheet order.
use vstd::prelude::*;
use indexmap::IndexMap;
use crate::text::{chars_of, views};

verus! {

#[verifier::external_type_specification]
#[verifier::external_body]
#[verifier::reject_recursive_types(K)]
#[verifier::reject_recursive_types(V)]
#[verifier::reject_recursive_types(S)]
pub struct ExIndexMap<K, V, S>(IndexMap<K, V, S>);

/// One row of the frame-kill sheet.
#[derive(Clone, Debug)]
pub struct FkSheetRow {
    /// The skill as written in the sheet ("1" to "3", or text such as a
    /// talent).
    pub skill_num: String,
    pub fk_num: String,
    pub fk_err: String,
    pub detail: String,
    pub last_edited: String,
    pub state: String,
}

/// `FkSheetRow` as plain values.
pub type FkRowV = (Seq<char>, Seq<char>, Seq<char>, Seq<char>, Seq<char>, Seq<char>);

impl View for FkSheetRow {
    type V = FkRowV;

    open spec fn view(&self) -> FkRowV {
        (
            self.skill_num@,
            self.fk_num@,
            self.fk_err@,
            self.detail@,
            self.last_edited@,
            self.state@,
        )
    }
}

/// The rows as plain values.
pub open spec fn rows_view(v: Seq<FkSheetRow>) -> Seq<FkRowV> {
    v.map_values(|r: FkSheetRow| r@)
}

/// The whole sheet: operator name to that operator's rows, in sheet order.
pub struct FkSheetData {
    pub by_operator: IndexMap<String, Vec<FkSheetRow>>,
}

/// The entries (name, rows) of a sheet map, in order.
pub uninterp spec fn sheet_entries(m: IndexMap<String, Vec<FkSheetRow>>) -> Seq<(Seq<char>, Seq<FkRowV>)>;

/// The entries (key, value) of a string map, in order.
pub uninterp spec fn string_map_entries(m: IndexMap<String, String>) -> Seq<(Seq<char>, Seq<char>)>;

/// The first position of an entry with key `k`.
pub open spec fn first_key<V>(s: Seq<(Seq<char>, V)>, k: Seq<char>) -> Option<int>
    decreases s.len(),
{
    if s.len() == 0 {
        None
    } else if s[0].0 == k {
        Some(0)
    } else {
        match first_key(s.drop_first(), k) {
            Some(i) => Some(i + 1),
            None => None,
        }
    }
}

/// With distinct keys, the first entry with an entry's key is that entry.
pub proof fn lemma_first_key_distinct<V>(s: Seq<(Seq<char>, V)>, i: int)
    requires
        s.map_values(|e: (Seq<char>, V)| e.0).no_duplicates(),
        0 <= i < s.len(),
    ensures
        first_key(s, s[i].0) == Some(i),
    decreases i,
{
    let keys = s.map_values(|e: (Seq<char>, V)| e.0);
    if i > 0 {
        assert(keys[0] != keys[i]);
        let d = s.drop_first();
        let dk = d.map_values(|e: (Seq<char>, V)| e.0);
        assert(dk =~= keys.drop_first());
        assert(d[i - 1] == s[i]);
        lemma_first_key_distinct(d, i - 1);
    }
}

/// `IndexMap::get`: the rows stored under `name`, `None` when the sheet has
/// no such operator. Keys of an `IndexMap` are distinct, so the entry found
/// is the first with that key.
#[verifier::external_body]
pub(crate) fn sheet_rows_of<'a>(m: &'a IndexMap<String, Vec<FkSheetRow>>, name: &str) -> (r: Option<
    &'a Vec<FkSheetRow>,
>)
    ensures
        match first_key(sheet_entries(*m), name@) {
            Some(i) => r matches Some(v) && rows_view(v@) == sheet_entries(*m)[i].1,
            None => r is None,
        },
{
    m.get(name)
}

/// `IndexMap::keys`: the operator names of the sheet, in order; the keys
/// of an `IndexMap` are distinct.
#[verifier::external_body]
pub(crate) fn sheet_names(m: &IndexMap<String, Vec<FkSheetRow>>) -> (r: Vec<String>)
    ensures
        views(r@) == sheet_entries(*m).map_values(|e: (Seq<char>, Seq<FkRowV>)| e.0),
        views(r@).no_duplicates(),
{
    m.keys().cloned().collect()
}

/// `IndexMap::new`: an empty string map.
#[verifier::external_body]
pub(crate) fn string_map_new() -> (r: IndexMap<String, String>)
    ensures
        string_map_entries(r) == Seq::<(Seq<char>, Seq<char>)>::empty(),
{
    IndexMap::new()
}

/// `IndexMap::insert`: a key already present keeps its place and gets the
/// new value; a new key is added last.
#[verifier::external_body]
pub(crate) fn string_map_insert(m: &mut IndexMap<String, String>, k: String, v: String)
    ensures
        match first_key(string_map_entries(*old(m)), k@) {
            Some(i) => string_map_entries(*final(m)) == string_map_entries(*old(m)).update(
                i,
                (k@, v@),
            ),
            None => string_map_entries(*final(m)) == string_map_entries(*old(m)).push((k@, v@)),
        },
{
    m.insert(k, v);
}


/// The sheet entries with one more row of operator `name`: added to that
/// operator's rows, or as a new operator last.
pub open spec fn group_push(
    s: Seq<(Seq<char>, Seq<FkRowV>)>,
    name: Seq<char>,
    row: FkRowV,
) -> Seq<(Seq<char>, Seq<FkRowV>)> {
    match first_key(s, name) {
        Some(i) => s.update(i, (name, s[i].1.push(row))),
        None => s.push((name, seq![row])),
    }
}

/// The row of the sheet that a line of cells (columns G to L) gives.
pub open spec fn row_of_cells(c: Seq<Seq<char>>) -> FkRowV {
    (c[6], c[7], c[8], c[9], c[10], c[11])
}

/// Whether a line of cells is a row of the sheet: it reaches column L and
/// was edited (its last-edited cell is not empty).
pub open spec fn is_sheet_row(c: Seq<Seq<char>>) -> bool {
    c.len() >= 12 && c[10].len() > 0
}

/// The sheet that the lines of cells give: the two header lines skipped,
/// the lines that are no rows left out, and the rows grouped by operator
/// name (column E), operators and rows in sheet order.
pub open spec fn sheet_spec(lines: Seq<Seq<Seq<char>>>) -> Seq<(Seq<char>, Seq<FkRowV>)>
    decreases lines.len(),
{
    if lines.len() <= 2 {
        seq![]
    } else {
        let p = sheet_spec(lines.drop_last());
        let c = lines.last();
        if is_sheet_row(c) {
            group_push(p, c[4], row_of_cells(c))
        } else {
            p
        }
    }
}

/// Lines of cells as plain values.
pub open spec fn lines_view(lines: Seq<Vec<String>>) -> Seq<Seq<Seq<char>>> {
    lines.map_values(|l: Vec<String>| views(l@))
}

/// `IndexMap::new`: an empty sheet map.
#[verifier::external_body]
fn sheet_map_new() -> (r: IndexMap<String, Vec<FkSheetRow>>)
    ensures
        sheet_entries(r) == Seq::<(Seq<char>, Seq<FkRowV>)>::empty(),
{
    IndexMap::new()
}

/// `IndexMap::entry(name).or_default().push(row)`: the row is pushed onto
/// the rows of `name`, which is added last with no rows first when the map
/// lacks it. Keys of an `IndexMap` are distinct, so the entry found is the
/// first with that key.
#[verifier::external_body]
fn sheet_map_push(m: &mut IndexMap<String, Vec<FkSheetRow>>, name: String, row: FkSheetRow)
    ensures
        sheet_entries(*final(m)) == group_push(sheet_entries(*old(m)), name@, row@),
{
    m.entry(name).or_default().push(row);
}

/// Builds the sheet from its lines of cells (see `sheet_spec`).
pub fn sheet_from_rows(lines: &Vec<Vec<String>>) -> (r: FkSheetData)
    ensures
        sheet_entries(r.by_operator) == sheet_spec(lines_view(lines@)),
{
    let ghost lv = lines_view(lines@);
    let mut m = sheet_map_new();
    let n = lines.len();
    if n <= 2 {
        return FkSheetData { by_operator: m };
    }
    assert(sheet_spec(lv.take(2)) == Seq::<(Seq<char>, Seq<FkRowV>)>::empty());
    for i in 2..n
        invariant
            n == lines@.len(),
            lv == lines_view(lines@),
            sheet_entries(m) == sheet_spec(lv.take(i as int)),
    {
        assert(lv.take(i + 1).drop_last() =~= lv.take(i as int));
        assert(lv.take(i + 1).last() == lv[i as int]);
        let c = &lines[i];
        assert(views(c@) == lv[i as int]);
        let edited = c.len() >= 12 && chars_of(c[10].as_str()).len() > 0;
        if edited {
            let row = FkSheetRow {
                skill_num: c[6].clone(),
                fk_num: c[7].clone(),
                fk_err: c[8].clone(),
                detail: c[9].clone(),
                last_edited: c[10].clone(),
                state: c[11].clone(),
            };
            assert(row@ == row_of_cells(lv[i as int]));
            assert(is_sheet_row(lv[i as int]));
            assert(c@[4]@ == lv[i as int][4]);
            sheet_map_push(&mut m, c[4].clone(), row);
        } else {
            if c.len() >= 12 {
                assert(c@[10]@ == lv[i as int][10]);
            }
            assert(!is_sheet_row(lv[i as int]));
        }
        assert(lv.take(i + 1).len() > 2);
    }
    assert(lv.take(n as int) =~= lv);
    FkSheetData { by_operator: m }
}

} // verus!
