//! Resolving an operator and a skill to its frame-kill row, and name
//! completion.
use vstd::prelude::*;
use indexmap::IndexMap;
use crate::outer_source::fk_data::{
    first_key, rows_view, sheet_entries, sheet_names, sheet_rows_of, string_map_entries,
    string_map_insert, string_map_new, FkRowV, FkSheetData, FkSheetRow,
};
use crate::outer_source::names::lookup;
use crate::outer_source::operator_data::{op_index, skill_id_list, skill_ids_of, CostState, OperatorData};
use crate::outer_source::skill_data::{skill_name_of, SkillData};
use crate::text::{
    contains, decimal, decimal_string, has_sub, str_eq, to_owned, trim, trim_seq, views,
};
use super::dto::{FkSearchResult, FkSearchResultV, FkSkillView, SkillCandidate};

verus! {

// ---------------------------------------------------------------------------
// Specification
// ---------------------------------------------------------------------------

/// The first position `i < n` whose skill number `i + 1`, written in
/// decimal, is `num`.
pub open spec fn skill_pos(n: nat, num: Seq<char>) -> Option<int>
    decreases n,
{
    if n == 0 {
        None
    } else {
        match skill_pos((n - 1) as nat, num) {
            Some(i) => Some(i),
            None => if decimal(n) == num {
                Some(n - 1)
            } else {
                None
            },
        }
    }
}

/// The name of the skill numbered `num` among the operator's skills, ""
/// when there is no such skill.
pub open spec fn resolved_name(
    ids: Seq<Seq<char>>,
    sd: Seq<(Seq<char>, (Seq<char>, Seq<char>))>,
    num: Seq<char>,
) -> Seq<char> {
    match skill_pos(ids.len(), num) {
        Some(i) => skill_name_of(sd, ids[i]),
        None => seq![],
    }
}

/// The display name of a skill: its name, else the skill as written.
pub open spec fn display_name(
    ids: Seq<Seq<char>>,
    sd: Seq<(Seq<char>, (Seq<char>, Seq<char>))>,
    num: Seq<char>,
) -> Seq<char> {
    let name = resolved_name(ids, sd, num);
    if name.len() == 0 {
        num
    } else {
        name
    }
}

/// The choices offered for the rows: each row's skill with its display name,
/// a repeated skill keeping its first place and taking the later name.
pub open spec fn choices_spec(
    rows: Seq<FkRowV>,
    ids: Seq<Seq<char>>,
    sd: Seq<(Seq<char>, (Seq<char>, Seq<char>))>,
) -> Seq<(Seq<char>, Seq<char>)>
    decreases rows.len(),
{
    if rows.len() == 0 {
        seq![]
    } else {
        let p = choices_spec(rows.drop_last(), ids, sd);
        let k = rows.last().0;
        let v = display_name(ids, sd, k);
        match first_key(p, k) {
            Some(i) => p.update(i, (k, v)),
            None => p.push((k, v)),
        }
    }
}

/// The first row whose skill is written exactly as `num`.
pub open spec fn row_pos(rows: Seq<FkRowV>, num: Seq<char>) -> Option<int>
    decreases rows.len(),
{
    if rows.len() == 0 {
        None
    } else if rows[0].0 == num {
        Some(0)
    } else {
        match row_pos(rows.drop_first(), num) {
            Some(i) => Some(i + 1),
            None => None,
        }
    }
}

/// The outcome of a search for `name` and `num` (see `resolve`).
pub open spec fn resolve_spec(
    sheet: Seq<(Seq<char>, Seq<FkRowV>)>,
    ids: Seq<Seq<char>>,
    sd: Seq<(Seq<char>, (Seq<char>, Seq<char>))>,
    name: Seq<char>,
    num: Seq<char>,
) -> FkSearchResultV {
    match first_key(sheet, name) {
        None => FkSearchResultV::OperatorNotFound,
        Some(k) => {
            let rows = sheet[k].1;
            let blank = trim_seq(num).len() == 0;
            if blank && rows.len() != 1 {
                FkSearchResultV::NeedsSkillSelection(choices_spec(rows, ids, sd))
            } else {
                let chosen = if rows.len() == 1 && blank {
                    Some(0int)
                } else {
                    row_pos(rows, num)
                };
                match chosen {
                    None => FkSearchResultV::SkillNotFound(
                        rows.map_values(|r: FkRowV| (r.0, resolved_name(ids, sd, r.0))),
                    ),
                    Some(j) => FkSearchResultV::Found(
                        resolved_name(ids, sd, rows[j].0),
                        num,
                        rows[j].1,
                        rows[j].2,
                        rows[j].3,
                    ),
                }
            }
        }
    }
}

/// The first `limit` names that contain `partial`, in order.
pub open spec fn first_matching(names: Seq<Seq<char>>, partial: Seq<char>, limit: nat) -> Seq<Seq<char>>
    decreases names.len(),
{
    if names.len() == 0 {
        seq![]
    } else {
        let p = first_matching(names.drop_last(), partial, limit);
        if p.len() < limit && has_sub(names.last(), partial) {
            p.push(names.last())
        } else {
            p
        }
    }
}

// ---------------------------------------------------------------------------
// Implementation
// ---------------------------------------------------------------------------

/// The position of the skill numbered `num` (see `skill_pos`).
pub(crate) fn skill_pos_exec(n: usize, num: &str) -> (r: Option<usize>)
    ensures
        r matches Some(i) ==> i < n && skill_pos(n as nat, num@) == Some(i as int),
        r is None ==> skill_pos(n as nat, num@) is None,
{
    let mut i: usize = 0;
    while i < n
        invariant
            i <= n,
            skill_pos(i as nat, num@) is None,
        decreases n - i,
    {
        let d = decimal_string(i as u64 + 1);
        if str_eq(d.as_str(), num) {
            assert(skill_pos((i + 1) as nat, num@) == Some(i as int));
            proof {
                lemma_skill_pos_stable((i + 1) as nat, n as nat, num@);
            }
            return Some(i);
        }
        i = i + 1;
    }
    None
}

/// Once found among the first `a`, the position stays the same among more.
proof fn lemma_skill_pos_stable(a: nat, b: nat, num: Seq<char>)
    requires
        a <= b,
        skill_pos(a, num) is Some,
    ensures
        skill_pos(b, num) == skill_pos(a, num),
    decreases b - a,
{
    if a < b {
        lemma_skill_pos_stable(a, (b - 1) as nat, num);
    }
}

/// The name of the skill numbered `num` (see `resolved_name`).
fn resolve_name(ids: &Vec<String>, skill_data: &SkillData, num: &str) -> (r: String)
    ensures
        r@ == resolved_name(views(ids@), skill_data@, num@),
{
    match skill_pos_exec(ids.len(), num) {
        Some(i) => to_owned(skill_data.get_str(ids[i].as_str())),
        None => String::new(),
    }
}

/// The first row whose skill is written as `num` (see `row_pos`).
fn row_pos_exec(rows: &Vec<FkSheetRow>, num: &str) -> (r: Option<usize>)
    ensures
        r matches Some(i) ==> i < rows@.len() && row_pos(rows_view(rows@), num@) == Some(i as int),
        r is None ==> row_pos(rows_view(rows@), num@) is None,
{
    let ghost rv = rows_view(rows@);
    let n = rows.len();
    for i in 0..n
        invariant
            n == rows@.len(),
            rv == rows_view(rows@),
            forall|j: int| 0 <= j < i ==> rv[j].0 != num@,
    {
        if str_eq(rows[i].skill_num.as_str(), num) {
            proof {
                lemma_row_pos_first(rv, num@, i as int);
            }
            return Some(i);
        }
    }
    proof {
        lemma_row_pos_none(rv, num@);
    }
    None
}

/// `row_pos` finds the first matching row.
proof fn lemma_row_pos_first(rows: Seq<FkRowV>, num: Seq<char>, i: int)
    requires
        0 <= i < rows.len(),
        rows[i].0 == num,
        forall|j: int| 0 <= j < i ==> rows[j].0 != num,
    ensures
        row_pos(rows, num) == Some(i),
    decreases i,
{
    if i > 0 {
        lemma_row_pos_first(rows.drop_first(), num, i - 1);
    }
}

/// `row_pos` finds nothing when no row matches.
proof fn lemma_row_pos_none(rows: Seq<FkRowV>, num: Seq<char>)
    requires
        forall|j: int| 0 <= j < rows.len() ==> rows[j].0 != num,
    ensures
        row_pos(rows, num) is None,
    decreases rows.len(),
{
    if rows.len() > 0 {
        lemma_row_pos_none(rows.drop_first(), num);
    }
}

/// `row_pos` finds a row of the skill asked for.
proof fn lemma_row_pos_found(rows: Seq<FkRowV>, num: Seq<char>)
    ensures
        match row_pos(rows, num) {
            Some(j) => 0 <= j < rows.len() && rows[j].0 == num,
            None => true,
        },
    decreases rows.len(),
{
    if rows.len() > 0 {
        lemma_row_pos_found(rows.drop_first(), num);
    }
}

/// `first_key` finds an entry with the key asked for.
proof fn lemma_first_key_found<V>(s: Seq<(Seq<char>, V)>, k: Seq<char>)
    ensures
        match first_key(s, k) {
            Some(i) => 0 <= i < s.len() && s[i].0 == k,
            None => true,
        },
    decreases s.len(),
{
    if s.len() > 0 {
        lemma_first_key_found(s.drop_first(), k);
    }
}

/// A row that a search finds is a row of the operator searched for: the
/// row of the skill asked for, or the operator's only row when no skill is
/// given. The result's frame-kill number, error margin and detail are that
/// row's own (the sheet's columns H, I and J), and the skill it reports is
/// the one asked for.
pub proof fn lemma_found_is_sheet_row(
    sheet: Seq<(Seq<char>, Seq<FkRowV>)>,
    ids: Seq<Seq<char>>,
    sd: Seq<(Seq<char>, (Seq<char>, Seq<char>))>,
    name: Seq<char>,
    num: Seq<char>,
)
    ensures
        match resolve_spec(sheet, ids, sd, name, num) {
            FkSearchResultV::Found(_, asked, fk, err, detail) => asked == num && exists|k: int, j: int|
                0 <= k < sheet.len() && sheet[k].0 == name && 0 <= j < sheet[k].1.len() && (sheet[k].1[j].0
                    == num || (trim_seq(num).len() == 0 && sheet[k].1.len() == 1)) && sheet[k].1[j].1 == fk
                    && sheet[k].1[j].2 == err && sheet[k].1[j].3 == detail,
            _ => true,
        },
{
    lemma_first_key_found(sheet, name);
    match first_key(sheet, name) {
        Some(k) => {
            lemma_row_pos_found(sheet[k].1, num);
            match resolve_spec(sheet, ids, sd, name, num) {
                FkSearchResultV::Found(_, _, fk, err, detail) => {
                    let rows = sheet[k].1;
                    let blank = trim_seq(num).len() == 0;
                    let j = if rows.len() == 1 && blank {
                        0int
                    } else {
                        row_pos(rows, num)->0
                    };
                    assert(0 <= j < rows.len() && rows[j].1 == fk && rows[j].2 == err && rows[j].3 == detail);
                },
                _ => {},
            }
        },
        None => {},
    }
}

/// Resolves a frame-kill row given the operator's skills in order (skill
/// "1" is the first).
fn resolve_with_ids(
    fk_data: &FkSheetData,
    skill_ids: &Vec<String>,
    skill_data: &SkillData,
    operator_name: &str,
    skill_num: &str,
) -> (r: FkSearchResult)
    ensures
        r@ == resolve_spec(
            sheet_entries(fk_data.by_operator),
            views(skill_ids@),
            skill_data@,
            operator_name@,
            skill_num@,
        ),
{
    let rows = match sheet_rows_of(&fk_data.by_operator, operator_name) {
        Some(rows) => rows,
        None => return FkSearchResult::OperatorNotFound,
    };
    let ghost rv = rows_view(rows@);
    let ghost ids = views(skill_ids@);
    let ghost sd = skill_data@;
    let trimmed = trim(skill_num);
    let trimmed_empty = trimmed.as_str().is_empty();
    if trimmed_empty && rows.len() != 1 {
        let mut choices: IndexMap<String, String> = string_map_new();
        let n = rows.len();
        assert(rv.take(0) =~= Seq::<FkRowV>::empty());
        for i in 0..n
            invariant
                n == rows@.len(),
                rv == rows_view(rows@),
                ids == views(skill_ids@),
                sd == skill_data@,
                string_map_entries(choices) == choices_spec(rv.take(i as int), ids, sd),
        {
            assert(rv.take(i + 1).drop_last() =~= rv.take(i as int));
            assert(rv.take(i + 1).last() == rv[i as int]);
            let row = &rows[i];
            let name = resolve_name(skill_ids, skill_data, row.skill_num.as_str());
            let display = if name.as_str().is_empty() {
                row.skill_num.clone()
            } else {
                name
            };
            string_map_insert(&mut choices, row.skill_num.clone(), display);
        }
        assert(rv.take(n as int) =~= rv);
        return FkSearchResult::NeedsSkillSelection { choices };
    }
    let chosen = if rows.len() == 1 && trimmed_empty {
        Some(0usize)
    } else {
        row_pos_exec(rows, skill_num)
    };
    match chosen {
        None => {
            let mut candidates: Vec<SkillCandidate> = Vec::new();
            let n = rows.len();
            let ghost want = rv.map_values(|r: FkRowV| (r.0, resolved_name(ids, sd, r.0)));
            for i in 0..n
                invariant
                    n == rows@.len(),
                    rv == rows_view(rows@),
                    ids == views(skill_ids@),
                    sd == skill_data@,
                    want == rv.map_values(|r: FkRowV| (r.0, resolved_name(ids, sd, r.0))),
                    candidates@.map_values(|c: SkillCandidate| (c.skill_num@, c.skill_name@))
                        == want.take(i as int),
            {
                let row = &rows[i];
                let name = resolve_name(skill_ids, skill_data, row.skill_num.as_str());
                let ghost before = candidates@.map_values(
                    |c: SkillCandidate| (c.skill_num@, c.skill_name@),
                );
                candidates.push(SkillCandidate { skill_num: row.skill_num.clone(), skill_name: name });
                assert(candidates@.map_values(|c: SkillCandidate| (c.skill_num@, c.skill_name@))
                    =~= before.push(want[i as int]));
                assert(want.take(i + 1) =~= want.take(i as int).push(want[i as int]));
            }
            assert(want.take(n as int) =~= want);
            FkSearchResult::SkillNotFound { candidates }
        },
        Some(j) => {
            let row = &rows[j];
            FkSearchResult::Found(
                FkSkillView {
                    skill_name: resolve_name(skill_ids, skill_data, row.skill_num.as_str()),
                    requested_skill_num: to_owned(skill_num),
                    fk_num: row.fk_num.clone(),
                    fk_err: row.fk_err.clone(),
                    detail: row.detail.clone(),
                },
            )
        },
    }
}

/// The skills, in order, of the operator the cost data knows by `name`;
/// none when it knows no such operator.
pub open spec fn skill_ids_by_name<M>(data: CostState<M>, name: Seq<char>) -> Seq<Seq<char>> {
    match lookup(data.name_to_id, name) {
        Some(id) => match op_index(data.ops, id) {
            Some(i) => skill_ids_of(data.ops[i]),
            None => seq![],
        },
        None => seq![],
    }
}

/// Resolves a frame-kill row. The operator's skills (skill "1" is the
/// first) come from the cost data, none when it does not know the operator.
/// With no skill given (blank) and one row, that row is found; with several
/// rows the user is asked to choose. Otherwise the row whose skill is
/// written exactly as given is found, or every row is offered.
pub fn resolve<M>(
    fk_data: &FkSheetData,
    operator_data: &OperatorData<M>,
    skill_data: &SkillData,
    operator_name: &str,
    skill_num: &str,
) -> (r: FkSearchResult)
    ensures
        r@ == resolve_spec(
            sheet_entries(fk_data.by_operator),
            skill_ids_by_name(operator_data@, operator_name@),
            skill_data@,
            operator_name@,
            skill_num@,
        ),
{
    let ids = match operator_data.get_by_name(operator_name) {
        Some(op) => skill_id_list(&op.skills),
        None => {
            let v: Vec<String> = Vec::new();
            assert(views(v@) =~= Seq::<Seq<char>>::empty());
            v
        },
    };
    resolve_with_ids(fk_data, &ids, skill_data, operator_name, skill_num)
}

/// The first `limit` operator names of the sheet that contain `partial`,
/// in sheet order.
pub fn autocomplete(fk_data: &FkSheetData, partial: &str, limit: usize) -> (r: Vec<String>)
    ensures
        views(r@) == first_matching(
            sheet_entries(fk_data.by_operator).map_values(|e: (Seq<char>, Seq<FkRowV>)| e.0),
            partial@,
            limit as nat,
        ),
{
    let names = sheet_names(&fk_data.by_operator);
    let ghost nv = views(names@);
    let mut out: Vec<String> = Vec::new();
    let n = names.len();
    assert(nv.take(0) =~= Seq::<Seq<char>>::empty());
    for i in 0..n
        invariant
            n == names@.len(),
            nv == views(names@),
            views(out@) == first_matching(nv.take(i as int), partial@, limit as nat),
    {
        assert(nv.take(i + 1).drop_last() =~= nv.take(i as int));
        assert(nv.take(i + 1).last() == nv[i as int]);
        if out.len() < limit && contains(names[i].as_str(), partial) {
            let ghost before = views(out@);
            out.push(names[i].clone());
            assert(views(out@) =~= before.push(nv[i as int]));
        }
    }
    assert(nv.take(n as int) =~= nv);
    out
}

} // verus!
