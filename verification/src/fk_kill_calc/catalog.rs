//! The parts of catalog building that decide on names and keys: matching
//! operator names across sources, and choosing the multiplier key of a
//! skill among its blackboard keys.
use vstd::prelude::*;
use crate::sorting::{insert_sorted, insertion_sort, lemma_insert_sorted_at};
use crate::text::{
    contains, ends_with, has_sub, occurs_at, push_str, replace, replace_seq, str_eq, to_owned,
    trim, trim_seq, views,
};
use crate::outer_source::fk_data::{
    first_key, rows_view, sheet_entries, sheet_names, sheet_rows_of, FkRowV, FkSheetData,
};
use crate::outer_source::names::{lookup, StrMap};
use crate::outer_source::operator_combat::{combat_index, CombatOpV, OperatorCombat};
use super::overrides::{all_keys_spec, Overrides};

verus! {

// ---------------------------------------------------------------------------
// Operator names
// ---------------------------------------------------------------------------

/// A name trimmed, with full-width parentheses made half-width.
pub open spec fn normalized_name(name: Seq<char>) -> Seq<char> {
    replace_seq(replace_seq(trim_seq(name), "（"@, "("@), "）"@, ")"@)
}

/// The form in which operator names of different sources are compared:
/// trimmed, with full-width parentheses made half-width.
pub fn normalize_operator_name(name: &str) -> (r: String)
    ensures
        r@ == normalized_name(name@),
{
    proof {
        reveal_strlit("（");
        reveal_strlit("）");
    }
    let t = trim(name);
    let a = replace(t.as_str(), "（", "(");
    replace(a.as_str(), "）", ")")
}

// ---------------------------------------------------------------------------
// Multiplier keys
// ---------------------------------------------------------------------------

/// `a` comes no later than `b` in code-point (and so UTF-8 byte) order.
pub open spec fn text_le(a: Seq<char>, b: Seq<char>) -> bool
    decreases a.len(),
{
    if a.len() == 0 {
        true
    } else if b.len() == 0 {
        false
    } else if a[0] != b[0] {
        (a[0] as int) < (b[0] as int)
    } else {
        text_le(a.drop_first(), b.drop_first())
    }
}

/// Any two texts are ordered one way or the other.
pub proof fn lemma_text_le_total(a: Seq<char>, b: Seq<char>)
    ensures
        text_le(a, b) || text_le(b, a),
    decreases a.len(),
{
    if a.len() > 0 && b.len() > 0 {
        if a[0] == b[0] {
            lemma_text_le_total(a.drop_first(), b.drop_first());
        } else {
            assert((a[0] as int) != (b[0] as int));
        }
    }
}

/// Texts ordered both ways are equal.
pub proof fn lemma_text_le_antisymmetric(a: Seq<char>, b: Seq<char>)
    requires
        text_le(a, b),
        text_le(b, a),
    ensures
        a == b,
    decreases a.len(),
{
    if a.len() == 0 {
        assert(b.len() == 0);
        assert(a =~= b);
    } else {
        assert(b.len() > 0);
        assert(a[0] == b[0]);
        lemma_text_le_antisymmetric(a.drop_first(), b.drop_first());
        assert(a =~= seq![a[0]] + a.drop_first());
        assert(b =~= seq![b[0]] + b.drop_first());
    }
}

/// The text order is transitive.
pub proof fn lemma_text_le_transitive(a: Seq<char>, b: Seq<char>, c: Seq<char>)
    requires
        text_le(a, b),
        text_le(b, c),
    ensures
        text_le(a, c),
    decreases a.len(),
{
    if a.len() > 0 && b.len() > 0 && c.len() > 0 && a[0] == b[0] && b[0] == c[0] {
        lemma_text_le_transitive(a.drop_first(), b.drop_first(), c.drop_first());
    }
}

/// `text_le` as a closure.
pub open spec fn text_order() -> spec_fn(Seq<char>, Seq<char>) -> bool {
    |a: Seq<char>, b: Seq<char>| text_le(a, b)
}

/// `s` ends with `t`.
pub open spec fn ends_with_spec(s: Seq<char>, t: Seq<char>) -> bool {
    t.len() <= s.len() && occurs_at(s, t, s.len() - t.len())
}

/// The keys that name a scale, sorted.
pub open spec fn sorted_scale_keys(keys: Seq<Seq<char>>) -> Seq<Seq<char>> {
    insertion_sort(keys.filter(|k: Seq<char>| has_sub(k, "scale"@)), text_order())
}

/// A key that names an attack or damage scale.
pub open spec fn is_damage_scale(k: Seq<char>) -> bool {
    ends_with_spec(k, "atk_scale"@) || ends_with_spec(k, "damage_scale"@)
}

/// The first position in `s` whose element satisfies `p`.
pub open spec fn first_where(s: Seq<Seq<char>>, p: spec_fn(Seq<char>) -> bool) -> Option<int>
    decreases s.len(),
{
    if s.len() == 0 {
        None
    } else if p(s[0]) {
        Some(0)
    } else {
        match first_where(s.drop_first(), p) {
            Some(i) => Some(i + 1),
            None => None,
        }
    }
}

/// The first position in `s` holding a damage scale.
pub open spec fn first_damage_scale(s: Seq<Seq<char>>) -> Option<int> {
    first_where(s, |k: Seq<char>| is_damage_scale(k))
}

/// `first_where` finds the first satisfying element.
proof fn lemma_first_where_at(s: Seq<Seq<char>>, p: spec_fn(Seq<char>) -> bool, i: int)
    requires
        0 <= i < s.len(),
        p(s[i]),
        forall|j: int| 0 <= j < i ==> !p(#[trigger] s[j]),
    ensures
        first_where(s, p) == Some(i),
    decreases i,
{
    if i > 0 {
        assert(!p(s[0]));
        assert forall|j: int| 0 <= j < i - 1 implies !p(#[trigger] s.drop_first()[j]) by {
            assert(s.drop_first()[j] == s[j + 1]);
        }
        lemma_first_where_at(s.drop_first(), p, i - 1);
    }
}

/// `first_where` finds nothing when nothing satisfies `p`.
proof fn lemma_first_where_none(s: Seq<Seq<char>>, p: spec_fn(Seq<char>) -> bool)
    requires
        forall|j: int| 0 <= j < s.len() ==> !p(#[trigger] s[j]),
    ensures
        first_where(s, p) is None,
    decreases s.len(),
{
    if s.len() > 0 {
        assert(!p(s[0]));
        assert forall|j: int| 0 <= j < s.len() - 1 implies !p(#[trigger] s.drop_first()[j]) by {
            assert(s.drop_first()[j] == s[j + 1]);
        }
        lemma_first_where_none(s.drop_first(), p);
    }
}

/// The multiplier key: `atk_scale` when the skill has it, else the first
/// (in order) scale key ending in `atk_scale` or `damage_scale`.
pub open spec fn chosen_key(keys: Seq<Seq<char>>) -> Option<Seq<char>> {
    if keys.contains("atk_scale"@) {
        Some("atk_scale"@)
    } else {
        match first_damage_scale(sorted_scale_keys(keys)) {
            Some(i) => Some(sorted_scale_keys(keys)[i]),
            None => None,
        }
    }
}

/// The first position of `x` in `s`.
pub open spec fn position_of(s: Seq<Seq<char>>, x: Seq<char>) -> Option<int> {
    first_where(s, equals(x))
}

/// Whether a text equals `x`.
pub open spec fn equals(x: Seq<char>) -> spec_fn(Seq<char>) -> bool {
    |y: Seq<char>| y == x
}

/// The scale keys in display order: the chosen key first, the rest sorted.
pub open spec fn candidate_order(keys: Seq<Seq<char>>) -> Seq<Seq<char>> {
    let sorted = sorted_scale_keys(keys);
    match chosen_key(keys) {
        Some(c) => match position_of(sorted, c) {
            Some(p) => seq![c] + sorted.remove(p),
            None => sorted,
        },
        None => sorted,
    }
}

/// The candidates offered are exactly the scale keys, with the chosen key
/// first when it is one of them.
pub proof fn lemma_candidate_order(keys: Seq<Seq<char>>)
    ensures
        candidate_order(keys).to_multiset() == sorted_scale_keys(keys).to_multiset(),
        match chosen_key(keys) {
            Some(c) => sorted_scale_keys(keys).contains(c) ==> candidate_order(keys)[0] == c,
            None => true,
        },
{
    let sorted = sorted_scale_keys(keys);
    match chosen_key(keys) {
        Some(c) => {
            let pw = equals(c);
            lemma_first_where_in_range(sorted, pw);
            lemma_first_where_found(sorted, pw);
            if sorted.contains(c) {
                let i = choose|i: int| 0 <= i < sorted.len() && sorted[i] == c;
                assert(pw(sorted[i]));
            }
            match position_of(sorted, c) {
                Some(p) => {
                    assert(pw(sorted[p]));
                    lemma_remove_to_front(sorted, p);
                },
                None => {},
            }
        },
        None => {},
    }
}

/// Moving an element to the front keeps the elements.
proof fn lemma_remove_to_front(s: Seq<Seq<char>>, p: int)
    requires
        0 <= p < s.len(),
    ensures
        (seq![s[p]] + s.remove(p)).to_multiset() == s.to_multiset(),
{
    broadcast use vstd::multiset::group_multiset_axioms;
    broadcast use vstd::seq_lib::group_to_multiset_ensures;

    let rest = s.remove(p);
    assert(s =~= s.take(p) + (seq![s[p]] + s.skip(p + 1)));
    assert(rest =~= s.take(p) + s.skip(p + 1));
    vstd::seq_lib::lemma_multiset_commutative(seq![s[p]], rest);
    vstd::seq_lib::lemma_multiset_commutative(s.take(p), s.skip(p + 1));
    vstd::seq_lib::lemma_multiset_commutative(s.take(p), seq![s[p]] + s.skip(p + 1));
    vstd::seq_lib::lemma_multiset_commutative(seq![s[p]], s.skip(p + 1));
    assert(s.to_multiset() =~= (seq![s[p]] + rest).to_multiset());
}

/// When some element satisfies `p`, `first_where` finds one.
proof fn lemma_first_where_found(s: Seq<Seq<char>>, p: spec_fn(Seq<char>) -> bool)
    ensures
        (exists|i: int| 0 <= i < s.len() && p(s[i])) ==> first_where(s, p) is Some,
    decreases s.len(),
{
    if s.len() > 0 && !p(s[0]) {
        lemma_first_where_found(s.drop_first(), p);
        if exists|i: int| 0 <= i < s.len() && p(s[i]) {
            let i = choose|i: int| 0 <= i < s.len() && p(s[i]);
            assert(i > 0);
            assert(s.drop_first()[i - 1] == s[i]);
        }
    }
}

/// `first_where` finds a position in range that satisfies `p`.
proof fn lemma_first_where_in_range(s: Seq<Seq<char>>, p: spec_fn(Seq<char>) -> bool)
    ensures
        first_where(s, p) matches Some(i) ==> 0 <= i < s.len() && p(s[i]),
    decreases s.len(),
{
    if s.len() > 0 && !p(s[0]) {
        lemma_first_where_in_range(s.drop_first(), p);
        if first_where(s.drop_first(), p) is Some {
            let i = first_where(s.drop_first(), p)->0;
            assert(s.drop_first()[i] == s[i + 1]);
        }
    }
}

/// Whether `a` comes no later than `b` (see `text_le`).
pub fn text_le_exec(a: &str, b: &str) -> (r: bool)
    ensures
        r == text_le(a@, b@),
{
    let ca = crate::text::chars_of(a);
    let cb = crate::text::chars_of(b);
    let mut i: usize = 0;
    assert(ca@.skip(0) =~= ca@);
    assert(cb@.skip(0) =~= cb@);
    while i < ca.len()
        invariant
            i <= ca@.len(),
            ca@ == a@,
            cb@ == b@,
            i <= cb@.len(),
            text_le(a@, b@) == text_le(ca@.skip(i as int), cb@.skip(i as int)),
        decreases ca@.len() - i,
    {
        if i >= cb.len() {
            assert(cb@.skip(i as int).len() == 0);
            return false;
        }
        let x = ca[i];
        let y = cb[i];
        assert(ca@.skip(i as int)[0] == x);
        assert(cb@.skip(i as int)[0] == y);
        if x != y {
            return x < y;
        }
        assert(ca@.skip(i as int).drop_first() =~= ca@.skip(i + 1));
        assert(cb@.skip(i as int).drop_first() =~= cb@.skip(i + 1));
        i = i + 1;
    }
    true
}

/// Inserts `x` after the last key that comes no later than it.
fn insert_key(v: &mut Vec<String>, x: String)
    ensures
        views(final(v)@) == insert_sorted(views(old(v)@), x@, text_order()),
{
    let ghost s = views(v@);
    let mut k = v.len();
    while k > 0 && !text_le_exec(v[k - 1].as_str(), x.as_str())
        invariant
            k <= v@.len(),
            s == views(v@),
            forall|j: int| k <= j < s.len() ==> !(text_order())(#[trigger] s[j], x@),
        decreases k,
    {
        k = k - 1;
    }
    proof {
        lemma_insert_sorted_at(s, x@, text_order(), k as int);
    }
    let ghost xv = x@;
    v.insert(k, x);
    assert(views(v@) =~= s.take(k as int).push(xv) + s.skip(k as int));
}

/// The first position holding a damage scale (see `first_damage_scale`).
fn first_damage_scale_exec(v: &Vec<String>) -> (r: Option<usize>)
    ensures
        r matches Some(i) ==> i < v@.len() && first_damage_scale(views(v@)) == Some(i as int),
        r is None ==> first_damage_scale(views(v@)) is None,
{
    proof {
        reveal_strlit("atk_scale");
        reveal_strlit("damage_scale");
    }
    let ghost vv = views(v@);
    let ghost p = |k: Seq<char>| is_damage_scale(k);
    let n = v.len();
    for i in 0..n
        invariant
            n == v@.len(),
            vv == views(v@),
            p == (|k: Seq<char>| is_damage_scale(k)),
            forall|j: int| 0 <= j < i ==> !p(#[trigger] vv[j]),
    {
        if ends_with(v[i].as_str(), "atk_scale") || ends_with(v[i].as_str(), "damage_scale") {
            assert(p(vv[i as int]));
            proof {
                lemma_first_where_at(vv, p, i as int);
            }
            return Some(i);
        }
    }
    proof {
        lemma_first_where_none(vv, p);
    }
    None
}

/// The first position of `x` (see `position_of`).
fn position_of_exec(v: &Vec<String>, x: &str) -> (r: Option<usize>)
    ensures
        r matches Some(i) ==> i < v@.len() && position_of(views(v@), x@) == Some(i as int),
        r is None ==> position_of(views(v@), x@) is None,
{
    let ghost vv = views(v@);
    let ghost p = equals(x@);
    let n = v.len();
    for i in 0..n
        invariant
            n == v@.len(),
            vv == views(v@),
            p == equals(x@),
            forall|j: int| 0 <= j < i ==> !p(#[trigger] vv[j]),
    {
        if str_eq(v[i].as_str(), x) {
            assert(p(vv[i as int]));
            proof {
                lemma_first_where_at(vv, p, i as int);
            }
            return Some(i);
        }
    }
    proof {
        lemma_first_where_none(vv, p);
    }
    None
}

/// The multiplier key and the scale keys in display order, from a skill's
/// blackboard keys (see `chosen_key` and `candidate_order`).
pub fn multiplier_keys(keys: &Vec<String>) -> (r: (Option<String>, Vec<String>))
    ensures
        match chosen_key(views(keys@)) {
            Some(c) => r.0 matches Some(x) && x@ == c,
            None => r.0 is None,
        },
        views(r.1@) == candidate_order(views(keys@)),
{
    proof {
        reveal_strlit("scale");
        reveal_strlit("atk_scale");
        reveal_strlit("damage_scale");
    }
    let ghost kv = views(keys@);
    let ghost scale = |k: Seq<char>| has_sub(k, "scale"@);
    let mut sorted: Vec<String> = Vec::new();
    let n = keys.len();
    assert(kv.take(0) =~= Seq::<Seq<char>>::empty());
    for i in 0..n
        invariant
            n == keys@.len(),
            kv == views(keys@),
            views(sorted@) == insertion_sort(
                kv.take(i as int).filter(|k: Seq<char>| has_sub(k, "scale"@)),
                text_order(),
            ),
    {
        proof {
            reveal(Seq::filter);
        }
        let ghost f = |k: Seq<char>| has_sub(k, "scale"@);
        assert(kv.take(i + 1).drop_last() =~= kv.take(i as int));
        assert(kv.take(i + 1).last() == kv[i as int]);
        if contains(keys[i].as_str(), "scale") {
            assert(kv.take(i + 1).filter(f) == kv.take(i as int).filter(f).push(kv[i as int]));
            proof {
                crate::sorting::lemma_insertion_sort_push(
                    kv.take(i as int).filter(f),
                    kv[i as int],
                    text_order(),
                );
            }
            insert_key(&mut sorted, keys[i].clone());
        } else {
            assert(kv.take(i + 1).filter(f) == kv.take(i as int).filter(f));
        }
    }
    assert(kv.take(n as int) =~= kv);
    let ghost sv = views(sorted@);
    let mut has_atk = false;
    for i in 0..n
        invariant
            n == keys@.len(),
            kv == views(keys@),
            has_atk == kv.take(i as int).contains("atk_scale"@),
    {
        broadcast use vstd::seq_lib::group_seq_properties;
        assert(kv.take(i + 1) =~= kv.take(i as int).push(kv[i as int]));
        if str_eq(keys[i].as_str(), "atk_scale") {
            has_atk = true;
        }
    }
    let chosen: Option<String> = if has_atk {
        Some(to_owned("atk_scale"))
    } else {
        match first_damage_scale_exec(&sorted) {
            Some(j) => Some(sorted[j].clone()),
            None => None,
        }
    };
    let order: Vec<String> = match &chosen {
        Some(c) => match position_of_exec(&sorted, c.as_str()) {
            Some(p) => {
                let m = sorted.len();
                let mut order: Vec<String> = Vec::new();
                order.push(c.clone());
                assert(views(order@) =~= seq![c@]);
                for t in 0..m
                    invariant
                        m == sorted@.len(),
                        sv == views(sorted@),
                        p < m,
                        views(order@) == seq![c@] + (if t <= p {
                            sv.take(t as int)
                        } else {
                            sv.take(p as int) + sv.subrange(p + 1, t as int)
                        }),
                {
                    let ghost before = views(order@);
                    if t != p {
                        order.push(sorted[t].clone());
                        assert(views(order@) =~= before.push(sv[t as int]));
                    }
                    if t < p {
                        assert(sv.take(t + 1) =~= sv.take(t as int).push(sv[t as int]));
                    } else if t == p {
                        assert(sv.take(p as int) + sv.subrange(p + 1, t + 1) =~= sv.take(t as int));
                    } else {
                        assert(sv.subrange(p + 1, t + 1) =~= sv.subrange(p + 1, t as int).push(
                            sv[t as int],
                        ));
                    }
                }
                assert(sv.take(p as int) + sv.subrange(p + 1, m as int) =~= sv.remove(p as int));
                order
            },
            None => sorted,
        },
        None => sorted,
    };
    (chosen, order)
}


// ---------------------------------------------------------------------------
// Checking the overrides against the data
// ---------------------------------------------------------------------------

/// The sheet's operator names by their normalized form (a later name wins).
pub open spec fn normalized_index(names: Seq<Seq<char>>) -> Seq<(Seq<char>, Seq<char>)> {
    names.map_values(|n: Seq<char>| (normalized_name(n), n))
}

/// `{op_id}/{skill_num} ({why})`.
pub open spec fn problem_text(op_id: Seq<char>, skill_num: Seq<char>, why: Seq<char>) -> Seq<char> {
    op_id + "/"@ + skill_num + " ("@ + why + ")"@
}

/// The name of the combat operator with id `id`, if there is one.
pub open spec fn combat_name<N>(ops: Seq<CombatOpV<N>>, id: Seq<char>) -> Option<Seq<char>> {
    match combat_index(ops, id) {
        Some(i) => Some(ops[i].name),
        None => None,
    }
}

/// What is wrong with one override key (operator id, skill), if anything:
/// the id is not a combat operator, the operator's name is not in the
/// sheet, or the sheet has no row for that skill.
pub open spec fn override_problem<N>(
    key: (Seq<char>, Seq<char>),
    combat: Seq<CombatOpV<N>>,
    sheet: Seq<(Seq<char>, Seq<FkRowV>)>,
) -> Option<Seq<char>> {
    let (op_id, skill_num) = key;
    match combat_name(combat, op_id) {
        None => Some(problem_text(op_id, skill_num, "operator idがoperator_combatに無い"@)),
        Some(name) => {
            let missing = problem_text(op_id, skill_num, "オペレーター名'"@ + name + "'がfk_dataに無い"@);
            match lookup(
                normalized_index(sheet.map_values(|e: (Seq<char>, Seq<FkRowV>)| e.0)),
                normalized_name(name),
            ) {
                None => Some(missing),
                Some(fk_name) => match first_key(sheet, fk_name) {
                    None => Some(missing),
                    Some(i) => if exists|j: int| 0 <= j < sheet[i].1.len() && sheet[i].1[j].0 == skill_num {
                        None
                    } else {
                        Some(
                            problem_text(
                                op_id,
                                skill_num,
                                "skill_num'"@ + skill_num + "'が'"@ + name + "'のfk_data行に無い"@,
                            ),
                        )
                    },
                },
            }
        },
    }
}

/// The problems of the override keys, in order.
pub open spec fn override_problems<N>(
    keys: Seq<(Seq<char>, Seq<char>)>,
    combat: Seq<CombatOpV<N>>,
    sheet: Seq<(Seq<char>, Seq<FkRowV>)>,
) -> Seq<Seq<char>> {
    keys.filter_map(|k: (Seq<char>, Seq<char>)| override_problem(k, combat, sheet))
}

/// `{op_id}/{skill_num} ({why})` as a string.
fn problem_string(op_id: &str, skill_num: &str, why: &str) -> (r: String)
    ensures
        r@ == problem_text(op_id@, skill_num@, why@),
{
    let mut s = to_owned(op_id);
    push_str(&mut s, "/");
    push_str(&mut s, skill_num);
    push_str(&mut s, " (");
    push_str(&mut s, why);
    push_str(&mut s, ")");
    s
}

/// `{a}{b}{c}` as a string.
fn concat3(a: &str, b: &str, c: &str) -> (r: String)
    ensures
        r@ == a@ + b@ + c@,
{
    let mut s = to_owned(a);
    push_str(&mut s, b);
    push_str(&mut s, c);
    s
}

/// Whether one of the rows is for `skill_num`.
fn has_row_for(rows: &Vec<crate::outer_source::fk_data::FkSheetRow>, skill_num: &str) -> (r: bool)
    ensures
        r == exists|j: int| 0 <= j < rows@.len() && rows_view(rows@)[j].0 == skill_num@,
{
    let ghost rv = rows_view(rows@);
    let n = rows.len();
    for j in 0..n
        invariant
            n == rows@.len(),
            rv == rows_view(rows@),
            forall|q: int| 0 <= q < j ==> rv[q].0 != skill_num@,
    {
        if str_eq(rows[j].skill_num.as_str(), skill_num) {
            assert(rv[j as int].0 == skill_num@);
            return true;
        }
    }
    false
}

/// Checks each corrected (operator id, skill) against the combat data and
/// the frame-kill sheet, and describes every key that points at nothing
/// (see `override_problem`); an empty list means all keys are good.
pub fn validate_overrides<N>(overrides: &Overrides<N>, fk: &FkSheetData, combat: &OperatorCombat<N>) -> (r:
    Vec<String>)
    ensures
        views(r@) == override_problems(all_keys_spec(overrides@), combat@.ops, sheet_entries(fk.by_operator)),
{
    let ghost sheet = sheet_entries(fk.by_operator);
    let names = sheet_names(&fk.by_operator);
    let ghost nv = views(names@);
    let mut index = StrMap::new();
    let m = names.len();
    assert(nv.take(0).map_values(|n: Seq<char>| (normalized_name(n), n)) =~= Seq::<(Seq<char>, Seq<char>)>::empty());
    for i in 0..m
        invariant
            m == names@.len(),
            nv == views(names@),
            index@ == normalized_index(nv.take(i as int)),
    {
        let k = normalize_operator_name(names[i].as_str());
        index.insert(k, names[i].clone());
        assert(normalized_index(nv.take(i + 1)) =~= normalized_index(nv.take(i as int)).push(
            (normalized_name(nv[i as int]), nv[i as int]),
        ));
    }
    assert(nv.take(m as int) =~= nv);
    let keys = overrides.all_keys();
    let ghost kv = keys@.map_values(|k: (String, String)| (k.0@, k.1@));
    let ghost f = |k: (Seq<char>, Seq<char>)| override_problem(k, combat@.ops, sheet);
    let mut bad: Vec<String> = Vec::new();
    let n = keys.len();
    assert(kv.take(0) =~= Seq::<(Seq<char>, Seq<char>)>::empty());
    for i in 0..n
        invariant
            n == keys@.len(),
            kv == keys@.map_values(|k: (String, String)| (k.0@, k.1@)),
            sheet == sheet_entries(fk.by_operator),
            index@ == normalized_index(sheet.map_values(|e: (Seq<char>, Seq<FkRowV>)| e.0)),
            f == (|k: (Seq<char>, Seq<char>)| override_problem(k, combat@.ops, sheet)),
            views(bad@) == kv.take(i as int).filter_map(f),
    {
        assert(kv.take(i + 1).drop_last() =~= kv.take(i as int));
        assert(kv.take(i + 1).last() == kv[i as int]);
        let op_id = keys[i].0.as_str();
        let skill_num = keys[i].1.as_str();
        let ghost before = views(bad@);
        let problem: Option<String> = match combat.get(op_id) {
            None => Some(problem_string(op_id, skill_num, "operator idがoperator_combatに無い")),
            Some(op) => {
                let name = &op.name;
                let why = concat3("オペレーター名'", name.as_str(), "'がfk_dataに無い");
                let norm = normalize_operator_name(name.as_str());
                match index.get(norm.as_str()) {
                    None => Some(problem_string(op_id, skill_num, why.as_str())),
                    Some(fk_name) => match sheet_rows_of(&fk.by_operator, fk_name.as_str()) {
                        None => Some(problem_string(op_id, skill_num, why.as_str())),
                        Some(rows) => if has_row_for(rows, skill_num) {
                            None
                        } else {
                            let w1 = concat3("skill_num'", skill_num, "'が'");
                            let w2 = concat3(w1.as_str(), name.as_str(), "'のfk_data行に無い");
                            Some(problem_string(op_id, skill_num, w2.as_str()))
                        },
                    },
                }
            },
        };
        match problem {
            Some(p) => {
                bad.push(p);
            },
            None => {},
        }
        assert(views(bad@) =~= kv.take(i + 1).filter_map(f));
    }
    assert(kv.take(n as int) =~= kv);
    bad
}

} // verus!
