//! Operator material costs as read from the character, promotion-variant and
//! module tables of both servers: which operators exist, their names,
//! rarities and flags, and which modules each has. The counts of the cost
//! lists are of the caller's number type `N`; they are carried, never read.
use vstd::prelude::*;
use crate::fk_kill_calc::catalog::{lemma_text_le_total, lemma_text_le_transitive, text_le, text_le_exec};
use crate::fk_kill_calc::tags::profession_tag;
use crate::sorting::{
    insertion_sort, lemma_insert_sorted_at, lemma_insertion_sort_props, lemma_insertion_sort_push,
    sorted_by, total_preorder,
};
use crate::text::{contains, has_sub, push_str, str_eq, to_owned, views};
use super::names::{
    cn_to_ja_spec, is_char_key, is_char_key_spec, job_ja, lemma_lookup_after_insert, lookup, StrMap,
};

verus! {

// ---------------------------------------------------------------------------
// Data
// ---------------------------------------------------------------------------

/// An item and how many of it.
#[derive(Debug)]
pub struct CostEntry<N> {
    pub id: String,
    pub count: N,
}

/// One skill: its id and the costs of its three masteries.
#[derive(Debug)]
pub struct RawSkill<N> {
    pub skill_id: String,
    pub masteries: Vec<Vec<CostEntry<N>>>,
}

/// One module: its type ("X", "Y", ...), whether only the mainland server
/// has it, and the costs of its stages.
#[derive(Debug)]
pub struct RawModule<N> {
    pub eq_type: String,
    pub cn_only: bool,
    pub phase_costs: Vec<Vec<CostEntry<N>>>,
}

/// One operator and what raising it costs.
#[derive(Debug)]
pub struct RawOperatorCost<N> {
    pub id: String,
    pub name: String,
    pub cn_name: String,
    /// The rarity in stars.
    pub stars: u32,
    /// Whether only the mainland server has the operator.
    pub cn_only: bool,
    /// Whether the operator is a promotion variant of another one.
    pub is_patch: bool,
    /// Whether the operator is recent: mainland-only, or named by the custom
    /// name table.
    pub is_recent: bool,
    /// The costs of the first and second promotion.
    pub phases: Vec<Vec<CostEntry<N>>>,
    pub skills: Vec<RawSkill<N>>,
    /// The costs of raising the skills from level 1 to 7.
    pub all_skill_lvlup: Vec<Vec<CostEntry<N>>>,
    /// Sorted by type.
    pub modules: Vec<RawModule<N>>,
}

/// A module as the specifications see it.
pub struct ModuleV<N> {
    pub eq_type: Seq<char>,
    pub cn_only: bool,
    pub phase_costs: Vec<Vec<CostEntry<N>>>,
}

impl<N> View for RawModule<N> {
    type V = ModuleV<N>;

    open spec fn view(&self) -> ModuleV<N> {
        ModuleV { eq_type: self.eq_type@, cn_only: self.cn_only, phase_costs: self.phase_costs }
    }
}

/// An operator as the specifications see it.
pub struct CostOpV<N> {
    pub id: Seq<char>,
    pub name: Seq<char>,
    pub cn_name: Seq<char>,
    pub stars: u32,
    pub cn_only: bool,
    pub is_patch: bool,
    pub is_recent: bool,
    pub phases: Vec<Vec<CostEntry<N>>>,
    pub skills: Vec<RawSkill<N>>,
    pub all_skill_lvlup: Vec<Vec<CostEntry<N>>>,
    pub modules: Seq<ModuleV<N>>,
}

impl<N> View for RawOperatorCost<N> {
    type V = CostOpV<N>;

    open spec fn view(&self) -> CostOpV<N> {
        CostOpV {
            id: self.id@,
            name: self.name@,
            cn_name: self.cn_name@,
            stars: self.stars,
            cn_only: self.cn_only,
            is_patch: self.is_patch,
            is_recent: self.is_recent,
            phases: self.phases,
            skills: self.skills,
            all_skill_lvlup: self.all_skill_lvlup,
            modules: self.modules@.map_values(|m: RawModule<N>| m@),
        }
    }
}

/// The operators as the specifications see them.
pub open spec fn cost_views<N>(s: Seq<RawOperatorCost<N>>) -> Seq<CostOpV<N>> {
    s.map_values(|o: RawOperatorCost<N>| o@)
}

/// A present string's characters.
pub open spec fn opt_view(o: Option<String>) -> Option<Seq<char>> {
    match o {
        Some(s) => Some(s@),
        None => None,
    }
}

// ---------------------------------------------------------------------------
// Rarity
// ---------------------------------------------------------------------------

/// A rarity as the tables write it.
#[derive(Debug)]
pub enum Rarity {
    /// The mainland form, `"TIER_6"`.
    Tier(String),
    /// The Japanese form, a number counted from 0 (as `u32`); `None` when the
    /// number is negative or not whole.
    Number(Option<u32>),
    /// Anything else, or nothing.
    Other,
}

/// `s` without any number of leading `"TIER_"`.
pub open spec fn strip_tier(s: Seq<char>) -> Seq<char>
    decreases s.len(),
{
    if s.len() >= 5 && s.take(5) == "TIER_"@ {
        strip_tier(s.skip(5))
    } else {
        s
    }
}

/// Whether `c` is an ASCII digit.
pub open spec fn is_digit(c: char) -> bool {
    '0' <= c && c <= '9'
}

/// The number written by the digits `s`.
pub open spec fn digits_value(s: Seq<char>) -> nat
    decreases s.len(),
{
    if s.len() == 0 {
        0
    } else {
        digits_value(s.drop_last()) * 10 + ((s.last() as int - '0' as int) as nat)
    }
}

/// `s` without one leading `+`.
pub open spec fn unsigned_part(s: Seq<char>) -> Seq<char> {
    if s.len() > 0 && s[0] == '+' {
        s.drop_first()
    } else {
        s
    }
}

/// Whether every character of `d` is a digit.
pub open spec fn all_digits(d: Seq<char>) -> bool {
    forall|i: int| 0 <= i < d.len() ==> is_digit(#[trigger] d[i])
}

/// A `u32` written in decimal: an optional `+`, then one or more digits,
/// whose value fits.
pub open spec fn parse_u32_spec(s: Seq<char>) -> Option<u32> {
    let d = unsigned_part(s);
    if d.len() > 0 && all_digits(d) && digits_value(d) <= u32::MAX {
        Some(digits_value(d) as u32)
    } else {
        None
    }
}

/// The stars of a rarity: the number after `"TIER_"`, or one more than the
/// Japanese number (wrapping around at the largest value); 0 when neither
/// can be read.
pub open spec fn rarity_stars(r: Rarity) -> u32 {
    match r {
        Rarity::Tier(s) => match parse_u32_spec(strip_tier(s@)) {
            Some(v) => v,
            None => 0,
        },
        Rarity::Number(Some(v)) => if v == u32::MAX {
            0
        } else {
            (v + 1) as u32
        },
        Rarity::Number(None) => 0,
        Rarity::Other => 0,
    }
}

/// Removes every leading `"TIER_"`.
fn strip_tier_exec(s: &str) -> (r: Vec<char>)
    ensures
        r@ == strip_tier(s@),
{
    proof {
        reveal_strlit("TIER_");
    }
    let cs = crate::text::chars_of(s);
    let n = cs.len();
    let mut i: usize = 0;
    assert(cs@.skip(0) =~= cs@);
    while n - i >= 5 && cs[i] == 'T' && cs[i + 1] == 'I' && cs[i + 2] == 'E' && cs[i + 3] == 'R' && cs[i
        + 4] == '_'
        invariant
            n == cs@.len(),
            i <= n,
            cs@ == s@,
            strip_tier(cs@.skip(i as int)) == strip_tier(s@),
        decreases n - i,
    {
        let ghost t = cs@.skip(i as int);
        proof {
            reveal_strlit("TIER_");
        }
        assert(t.take(5) =~= "TIER_"@);
        assert(t.skip(5) =~= cs@.skip(i + 5));
        i = i + 5;
    }
    let ghost t = cs@.skip(i as int);
    proof {
        if t.len() >= 5 && t.take(5) == "TIER_"@ {
            assert(t.take(5)[0] == 'T' && t.take(5)[1] == 'I' && t.take(5)[2] == 'E' && t.take(5)[3]
                == 'R' && t.take(5)[4] == '_');
            assert(false);
        }
    }
    let mut out: Vec<char> = Vec::new();
    let mut j: usize = i;
    while j < n
        invariant
            n == cs@.len(),
            i <= j <= n,
            out@ == cs@.subrange(i as int, j as int),
        decreases n - j,
    {
        out.push(cs[j]);
        j = j + 1;
        assert(out@ =~= cs@.subrange(i as int, j as int));
    }
    assert(out@ =~= t);
    out
}

/// Reads a `u32` written in decimal (see `parse_u32_spec`).
fn parse_u32(d0: &Vec<char>) -> (r: Option<u32>)
    ensures
        r == parse_u32_spec(d0@),
{
    let n = d0.len();
    let start: usize = if n > 0 && d0[0] == '+' {
        1
    } else {
        0
    };
    let ghost d = unsigned_part(d0@);
    assert(d =~= d0@.skip(start as int));
    if start == n {
        return None;
    }
    let mut v: u64 = 0;
    let mut i: usize = start;
    while i < n
        invariant
            start <= i <= n,
            n == d0@.len(),
            d == d0@.skip(start as int),
            d == unsigned_part(d0@),
            forall|q: int| 0 <= q < i - start ==> is_digit(#[trigger] d[q]),
            v == digits_value(d.take(i - start)),
            v <= u32::MAX,
        decreases n - i,
    {
        let c = d0[i];
        assert(d[i - start] == c);
        if !('0' <= c && c <= '9') {
            assert(!is_digit(d[i - start]));
            return None;
        }
        let dv = (c as u64) - ('0' as u64);
        assert(d.take(i - start + 1).drop_last() =~= d.take(i - start));
        let nv = v * 10 + dv;
        assert(nv == digits_value(d.take(i - start + 1)));
        if nv > 0xffff_ffff {
            proof {
                lemma_digits_value_prefix(d, i - start + 1);
            }
            return None;
        }
        v = nv;
        i = i + 1;
    }
    assert(d.take(n - start) =~= d);
    Some(v as u32)
}

/// A number's value is at least that of any of its prefixes.
proof fn lemma_digits_value_prefix(d: Seq<char>, k: int)
    requires
        0 <= k <= d.len(),
    ensures
        digits_value(d.take(k)) <= digits_value(d),
    decreases d.len() - k,
{
    if k < d.len() {
        lemma_digits_value_prefix(d, k + 1);
        assert(d.take(k + 1).drop_last() =~= d.take(k));
    } else {
        assert(d.take(k) =~= d);
    }
}

/// The stars of a rarity (see `rarity_stars`).
pub fn stars_of(r: &Rarity) -> (s: u32)
    ensures
        s == rarity_stars(*r),
{
    match r {
        Rarity::Tier(t) => {
            let d = strip_tier_exec(t.as_str());
            match parse_u32(&d) {
                Some(v) => v,
                None => 0,
            }
        },
        Rarity::Number(Some(v)) => if *v == u32::MAX {
            0
        } else {
            *v + 1
        },
        Rarity::Number(None) => 0,
        Rarity::Other => 0,
    }
}

// ---------------------------------------------------------------------------
// The tables as read
// ---------------------------------------------------------------------------

/// What one server's table says of an operator.
#[derive(Debug)]
pub struct CostFields<N> {
    pub name: Option<String>,
    pub profession: Option<String>,
    pub rarity: Rarity,
    pub phases: Vec<Vec<CostEntry<N>>>,
    pub skills: Vec<RawSkill<N>>,
    pub all_skill_lvlup: Vec<Vec<CostEntry<N>>>,
}

/// One entry of the mainland character table, with the Japanese table's
/// entry for the same key when it has one.
#[derive(Debug)]
pub struct CostCharRow<N> {
    pub key: String,
    /// Whether the mainland entry is marked as not obtainable.
    pub not_obtainable: bool,
    pub cn: CostFields<N>,
    pub jp: Option<CostFields<N>>,
}

/// One promotion variant of the mainland variant table, with the Japanese
/// table's entry for the same key when it has one.
#[derive(Debug)]
pub struct CostPatchRow<N> {
    pub key: String,
    pub cn: CostFields<N>,
    pub jp: Option<CostFields<N>>,
}

/// Which variant keys an original operator has.
#[derive(Debug)]
pub struct PatchInfo {
    pub original_id: String,
    pub tmpl_ids: Vec<String>,
}

/// The variant table: its variants and the originals they belong to.
#[derive(Debug)]
pub struct CostPatchTables<N> {
    pub chars: Vec<CostPatchRow<N>>,
    pub infos: Vec<PatchInfo>,
}

/// One entry of the mainland module table.
#[derive(Debug)]
pub struct CostEquipRow<N> {
    pub equip_id: String,
    /// The stage costs, when the entry has a cost table.
    pub item_cost: Option<Vec<Vec<CostEntry<N>>>>,
    pub type_name2: Option<String>,
    pub char_id: Option<String>,
    /// Whether the Japanese module table has the entry.
    pub in_jp: bool,
}

/// The three tables.
#[derive(Debug)]
pub struct CostTables<N> {
    pub chars: Vec<CostCharRow<N>>,
    /// `None` when the variant table lacks its variants or its originals.
    pub patches: Option<CostPatchTables<N>>,
    pub equips: Vec<CostEquipRow<N>>,
}

// ---------------------------------------------------------------------------
// Specification
// ---------------------------------------------------------------------------

/// The first position of an operator with id `id`.
pub open spec fn op_index<N>(ops: Seq<CostOpV<N>>, id: Seq<char>) -> Option<int>
    decreases ops.len(),
{
    if ops.len() == 0 {
        None
    } else if ops[0].id == id {
        Some(0)
    } else {
        match op_index(ops.drop_first(), id) {
            Some(i) => Some(i + 1),
            None => None,
        }
    }
}

/// No id occurs twice.
pub open spec fn ids_distinct<N>(ops: Seq<CostOpV<N>>) -> bool {
    forall|a: int, b: int| 0 <= a < b < ops.len() ==> #[trigger] ops[a].id != #[trigger] ops[b].id
}

/// `op` stored under its id: in place of the operator with that id, else
/// added last.
pub open spec fn upsert<N>(ops: Seq<CostOpV<N>>, op: CostOpV<N>) -> Seq<CostOpV<N>> {
    match op_index(ops, op.id) {
        Some(i) => ops.update(i, op),
        None => ops.push(op),
    }
}

/// What is built from the tables: the operators in table order, the names
/// to ids, and the mainland names to Japanese names.
pub struct CostState<N> {
    pub ops: Seq<CostOpV<N>>,
    pub name_to_id: Seq<(Seq<char>, Seq<char>)>,
    pub cn_to_ja: Seq<(Seq<char>, Seq<char>)>,
}

/// The fields an entry is read from: the Japanese ones when the Japanese
/// table has the entry, else the mainland ones.
pub open spec fn source_fields<N>(cn: CostFields<N>, jp: Option<CostFields<N>>) -> CostFields<N> {
    match jp {
        Some(j) => j,
        None => cn,
    }
}

/// Whether a character entry becomes an operator: an operator key,
/// obtainable, with a mainland name.
pub open spec fn char_kept<N>(row: CostCharRow<N>) -> bool {
    is_char_key_spec(row.key@) && !row.not_obtainable && row.cn.name is Some
}

/// The Japanese name of a character entry: the Japanese table's, else the
/// custom name of its mainland name.
pub open spec fn char_ja_name<N>(row: CostCharRow<N>, custom: Seq<(Seq<char>, Seq<char>)>) -> Option<
    Seq<char>,
> {
    let jp_name = match row.jp {
        Some(j) => opt_view(j.name),
        None => None,
    };
    match jp_name {
        Some(n) => Some(n),
        None => lookup(custom, row.cn.name->0@),
    }
}

/// Whether a mainland name is recent: the operator is mainland-only, or the
/// custom table names it.
pub open spec fn recent(cn_only: bool, cn_name: Seq<char>, custom: Seq<(Seq<char>, Seq<char>)>) -> bool {
    cn_only || lookup(custom, cn_name) is Some
}

/// The operator of a kept character entry.
pub open spec fn char_op<N>(row: CostCharRow<N>, custom: Seq<(Seq<char>, Seq<char>)>) -> CostOpV<N> {
    let cn_name = row.cn.name->0@;
    let src = source_fields(row.cn, row.jp);
    let cn_only = row.jp is None;
    CostOpV {
        id: row.key@,
        name: match char_ja_name(row, custom) {
            Some(j) => j,
            None => cn_name,
        },
        cn_name,
        stars: rarity_stars(src.rarity),
        cn_only,
        is_patch: false,
        is_recent: recent(cn_only, cn_name, custom),
        phases: src.phases,
        skills: src.skills,
        all_skill_lvlup: src.all_skill_lvlup,
        modules: seq![],
    }
}

/// The state after the character entries, in order.
pub open spec fn cost_chars<N>(rows: Seq<CostCharRow<N>>, custom: Seq<(Seq<char>, Seq<char>)>) -> CostState<
    N,
>
    decreases rows.len(),
{
    if rows.len() == 0 {
        CostState { ops: seq![], name_to_id: seq![], cn_to_ja: seq![] }
    } else {
        let st = cost_chars(rows.drop_last(), custom);
        let row = rows.last();
        if !char_kept(row) {
            st
        } else {
            let op = char_op(row, custom);
            CostState {
                ops: upsert(st.ops, op),
                name_to_id: st.name_to_id.push((op.name, op.id)),
                cn_to_ja: match char_ja_name(row, custom) {
                    Some(j) => st.cn_to_ja.push((op.cn_name, j)),
                    None => st.cn_to_ja,
                },
            }
        }
    }
}

/// Every operator has no modules yet.
pub open spec fn no_modules<N>(ops: Seq<CostOpV<N>>) -> bool {
    forall|i: int| 0 <= i < ops.len() ==> (#[trigger] ops[i]).modules.len() == 0
}

// ---------------------------------------------------------------------------
// Proofs
// ---------------------------------------------------------------------------

/// `op_index` finds the first operator with the id, and nothing when there
/// is none.
pub proof fn lemma_op_index<N>(ops: Seq<CostOpV<N>>, id: Seq<char>)
    ensures
        match op_index(ops, id) {
            Some(i) => 0 <= i < ops.len() && ops[i].id == id && forall|q: int| 0 <= q < i ==> ops[q].id
                != id,
            None => forall|q: int| 0 <= q < ops.len() ==> ops[q].id != id,
        },
    decreases ops.len(),
{
    if ops.len() > 0 {
        lemma_op_index(ops.drop_first(), id);
        assert forall|q: int| 1 <= q < ops.len() implies ops[q] == ops.drop_first()[q - 1] by {}
    }
}

/// Storing an operator keeps the ids distinct and adds no module.
pub proof fn lemma_upsert<N>(ops: Seq<CostOpV<N>>, op: CostOpV<N>)
    requires
        ids_distinct(ops),
    ensures
        ids_distinct(upsert(ops, op)),
        no_modules(ops) && op.modules.len() == 0 ==> no_modules(upsert(ops, op)),
{
    lemma_op_index(ops, op.id);
}

// ---------------------------------------------------------------------------
// Implementation
// ---------------------------------------------------------------------------

/// A present string's copy.
pub(crate) fn clone_opt(o: &Option<String>) -> (r: Option<String>)
    ensures
        opt_view(r) == opt_view(*o),
{
    match o {
        Some(s) => Some(s.clone()),
        None => None,
    }
}

/// Stores `op` under its id (see `upsert`).
fn upsert_op<N>(ops: &mut Vec<RawOperatorCost<N>>, op: RawOperatorCost<N>)
    requires
        ids_distinct(cost_views(old(ops)@)),
    ensures
        cost_views(final(ops)@) == upsert(cost_views(old(ops)@), op@),
        ids_distinct(cost_views(final(ops)@)),
{
    let ghost before = cost_views(ops@);
    proof {
        lemma_op_index(before, op.id@);
        lemma_upsert(before, op@);
    }
    let n = ops.len();
    let mut j: usize = 0;
    while j < n
        invariant
            n == ops@.len(),
            before == cost_views(ops@),
            before == cost_views(old(ops)@),
            ids_distinct(before),
            forall|q: int| 0 <= q < j ==> before[q].id != op.id@,
        decreases n - j,
    {
        if str_eq(ops[j].id.as_str(), op.id.as_str()) {
            proof {
                lemma_op_index(before, op.id@);
                lemma_upsert(before, op@);
            }
            assert(before[j as int].id == op.id@);
            assert(op_index(before, op.id@) == Some(j as int));
            let ghost v = op@;
            ops[j] = op;
            assert(cost_views(ops@) =~= before.update(j as int, v));
            return;
        }
        j = j + 1;
    }
    proof {
        lemma_op_index(before, op.id@);
        lemma_upsert(before, op@);
    }
    assert(op_index(before, op.id@) is None);
    let ghost v = op@;
    ops.push(op);
    assert(cost_views(ops@) =~= before.push(v));
}

/// Adds the operators of the character entries (see `cost_chars`).
fn build_characters<N>(rows: Vec<CostCharRow<N>>, custom: &StrMap) -> (r: (
    Vec<RawOperatorCost<N>>,
    StrMap,
    StrMap,
))
    ensures
        cost_views(r.0@) == cost_chars(rows@, custom@).ops,
        r.1@ == cost_chars(rows@, custom@).name_to_id,
        r.2@ == cost_chars(rows@, custom@).cn_to_ja,
        ids_distinct(cost_views(r.0@)),
        no_modules(cost_views(r.0@)),
{
    let ghost orig = rows@;
    let mut ops: Vec<RawOperatorCost<N>> = Vec::new();
    let mut names = StrMap::new();
    let mut cn_to_ja = StrMap::new();
    assert(orig.take(0) =~= Seq::<CostCharRow<N>>::empty());
    assert(cost_views(ops@) =~= Seq::<CostOpV<N>>::empty());
    for row in it: rows.into_iter()
        invariant
            orig == it.seq(),
            cost_views(ops@) == cost_chars(orig.take(it.index() as int), custom@).ops,
            names@ == cost_chars(orig.take(it.index() as int), custom@).name_to_id,
            cn_to_ja@ == cost_chars(orig.take(it.index() as int), custom@).cn_to_ja,
            ids_distinct(cost_views(ops@)),
            no_modules(cost_views(ops@)),
    {
        let ghost i = it.index() as int;
        let ghost r0 = row;
        assert(orig.take(i + 1).drop_last() =~= orig.take(i));
        assert(orig.take(i + 1).last() == r0);
        let ghost st = cost_chars(orig.take(i), custom@);
        let CostCharRow { key, not_obtainable, cn, jp } = row;
        if is_char_key(key.as_str()) && !not_obtainable {
            let cn_name = clone_opt(&cn.name);
            match cn_name {
                None => {},
                Some(cn_name) => {
                    let jp_name = match &jp {
                        Some(j) => clone_opt(&j.name),
                        None => None,
                    };
                    let ja = match jp_name {
                        Some(n) => Some(n),
                        None => match custom.get(cn_name.as_str()) {
                            Some(c) => Some(c.clone()),
                            None => None,
                        },
                    };
                    assert(opt_view(ja) == char_ja_name(r0, custom@));
                    let cn_only = jp.is_none();
                    let is_recent = cn_only || custom.get(cn_name.as_str()).is_some();
                    let src = match jp {
                        Some(j) => j,
                        None => cn,
                    };
                    let name = match &ja {
                        Some(j) => j.clone(),
                        None => cn_name.clone(),
                    };
                    match ja {
                        Some(j) => {
                            cn_to_ja.insert(cn_name.clone(), j);
                        },
                        None => {},
                    }
                    names.insert(name.clone(), key.clone());
                    let stars = stars_of(&src.rarity);
                    let op = RawOperatorCost {
                        id: key,
                        name,
                        cn_name,
                        stars,
                        cn_only,
                        is_patch: false,
                        is_recent,
                        phases: src.phases,
                        skills: src.skills,
                        all_skill_lvlup: src.all_skill_lvlup,
                        modules: Vec::new(),
                    };
                    assert(op@.modules =~= Seq::<ModuleV<N>>::empty());
                    assert(op@ == char_op(r0, custom@));
                    proof {
                        lemma_upsert(st.ops, op@);
                    }
                    upsert_op(&mut ops, op);
                },
            }
        }
    }
    assert(orig.take(orig.len() as int) =~= orig);
    (ops, names, cn_to_ja)
}

// ---------------------------------------------------------------------------
// Promotion variants
// ---------------------------------------------------------------------------

/// An operator's id, name and mainland name.
pub open spec fn base_entry<N>(o: CostOpV<N>) -> (Seq<char>, Seq<char>, Seq<char>) {
    (o.id, o.name, o.cn_name)
}

/// The first position of an entry with id `id`.
pub open spec fn base_index(base: Seq<(Seq<char>, Seq<char>, Seq<char>)>, id: Seq<char>) -> Option<int>
    decreases base.len(),
{
    if base.len() == 0 {
        None
    } else if base[0].0 == id {
        Some(0)
    } else {
        match base_index(base.drop_first(), id) {
            Some(i) => Some(i + 1),
            None => None,
        }
    }
}

/// The first original whose variant keys include `key`.
pub open spec fn tmpl_index(infos: Seq<PatchInfo>, key: Seq<char>) -> Option<int>
    decreases infos.len(),
{
    if infos.len() == 0 {
        None
    } else if views(infos[0].tmpl_ids@).contains(key) {
        Some(0)
    } else {
        match tmpl_index(infos.drop_first(), key) {
            Some(i) => Some(i + 1),
            None => None,
        }
    }
}

/// The name and mainland name of the original of variant `key`: those of
/// the first original listing it, empty when there is none or it is not an
/// operator.
pub open spec fn original_names(
    infos: Seq<PatchInfo>,
    base: Seq<(Seq<char>, Seq<char>, Seq<char>)>,
    key: Seq<char>,
) -> (Seq<char>, Seq<char>) {
    match tmpl_index(infos, key) {
        Some(i) => match base_index(base, infos[i].original_id@) {
            Some(j) => (base[j].1, base[j].2),
            None => (seq![], seq![]),
        },
        None => (seq![], seq![]),
    }
}

/// The Japanese name of a profession, or "不明" (unknown).
pub open spec fn job_name(p: Seq<char>) -> Seq<char> {
    match profession_tag(p) {
        Some(j) => j,
        None => "不明"@,
    }
}

/// `{name}({job})`.
pub open spec fn with_job(name: Seq<char>, job: Seq<char>) -> Seq<char> {
    name + "("@ + job + ")"@
}

/// The operator of a variant entry, when its fields give a profession.
pub open spec fn patch_op<N>(
    row: CostPatchRow<N>,
    infos: Seq<PatchInfo>,
    base: Seq<(Seq<char>, Seq<char>, Seq<char>)>,
    custom: Seq<(Seq<char>, Seq<char>)>,
) -> Option<CostOpV<N>> {
    let src = source_fields(row.cn, row.jp);
    match src.profession {
        None => None,
        Some(p) => {
            let job = job_name(p@);
            let (on, ocn) = original_names(infos, base, row.key@);
            let cn_name = with_job(ocn, job);
            let cn_only = row.jp is None;
            Some(
                CostOpV {
                    id: row.key@,
                    name: with_job(on, job),
                    cn_name,
                    stars: rarity_stars(src.rarity),
                    cn_only,
                    is_patch: true,
                    is_recent: recent(cn_only, cn_name, custom),
                    phases: src.phases,
                    skills: src.skills,
                    all_skill_lvlup: src.all_skill_lvlup,
                    modules: seq![],
                },
            )
        },
    }
}

/// The state after the variant entries, in order, starting from `st`.
pub open spec fn cost_patches<N>(
    rows: Seq<CostPatchRow<N>>,
    infos: Seq<PatchInfo>,
    base: Seq<(Seq<char>, Seq<char>, Seq<char>)>,
    custom: Seq<(Seq<char>, Seq<char>)>,
    st: CostState<N>,
) -> CostState<N>
    decreases rows.len(),
{
    if rows.len() == 0 {
        st
    } else {
        let s = cost_patches(rows.drop_last(), infos, base, custom, st);
        match patch_op(rows.last(), infos, base, custom) {
            None => s,
            Some(op) => CostState {
                ops: upsert(s.ops, op),
                name_to_id: s.name_to_id.push((op.name, op.id)),
                cn_to_ja: s.cn_to_ja,
            },
        }
    }
}

/// The ids, names and mainland names of the operators.
fn base_entries<N>(ops: &Vec<RawOperatorCost<N>>) -> (r: Vec<(String, String, String)>)
    ensures
        r@.map_values(|e: (String, String, String)| (e.0@, e.1@, e.2@)) == cost_views(ops@).map_values(
            |o: CostOpV<N>| base_entry(o),
        ),
{
    let mut r: Vec<(String, String, String)> = Vec::new();
    let n = ops.len();
    for i in 0..n
        invariant
            n == ops@.len(),
            r@.map_values(|e: (String, String, String)| (e.0@, e.1@, e.2@)) == cost_views(
                ops@.take(i as int),
            ).map_values(|o: CostOpV<N>| base_entry(o)),
    {
        let ghost before = r@.map_values(|e: (String, String, String)| (e.0@, e.1@, e.2@));
        r.push((ops[i].id.clone(), ops[i].name.clone(), ops[i].cn_name.clone()));
        assert(r@.map_values(|e: (String, String, String)| (e.0@, e.1@, e.2@)) =~= before.push(
            base_entry(ops@[i as int]@),
        ));
        assert(cost_views(ops@.take(i + 1)).map_values(|o: CostOpV<N>| base_entry(o)) =~= cost_views(
            ops@.take(i as int),
        ).map_values(|o: CostOpV<N>| base_entry(o)).push(base_entry(ops@[i as int]@)));
    }
    assert(ops@.take(n as int) =~= ops@);
    r
}

/// The name and mainland name of a variant's original (see
/// `original_names`).
pub(crate) fn find_original(infos: &Vec<PatchInfo>, base: &Vec<(String, String, String)>, key: &str) -> (r: (
    String,
    String,
))
    ensures
        (r.0@, r.1@) == original_names(
            infos@,
            base@.map_values(|e: (String, String, String)| (e.0@, e.1@, e.2@)),
            key@,
        ),
{
    let ghost bv = base@.map_values(|e: (String, String, String)| (e.0@, e.1@, e.2@));
    let n = infos.len();
    let mut i: usize = 0;
    assert(infos@.skip(0) =~= infos@);
    while i < n
        invariant
            n == infos@.len(),
            i <= n,
            bv == base@.map_values(|e: (String, String, String)| (e.0@, e.1@, e.2@)),
            tmpl_index(infos@, key@) == match tmpl_index(infos@.skip(i as int), key@) {
                Some(q) => Some(q + i),
                None => None,
            },
        decreases n - i,
    {
        let ghost rest = infos@.skip(i as int);
        assert(rest[0] == infos@[i as int]);
        assert(rest.drop_first() =~= infos@.skip(i + 1));
        if crate::text::list_contains(&infos[i].tmpl_ids, key) {
            assert(tmpl_index(infos@, key@) == Some(i as int));
            let m = base.len();
            let mut j: usize = 0;
            assert(bv.skip(0) =~= bv);
            while j < m
                invariant
                    m == base@.len(),
                    j <= m,
                    n == infos@.len(),
                    i < n,
                    tmpl_index(infos@, key@) == Some(i as int),
                    bv == base@.map_values(|e: (String, String, String)| (e.0@, e.1@, e.2@)),
                    base_index(bv, infos@[i as int].original_id@) == match base_index(
                        bv.skip(j as int),
                        infos@[i as int].original_id@,
                    ) {
                        Some(q) => Some(q + j),
                        None => None,
                    },
                decreases m - j,
            {
                let ghost brest = bv.skip(j as int);
                assert(brest[0] == bv[j as int]);
                assert(brest.drop_first() =~= bv.skip(j + 1));
                if str_eq(base[j].0.as_str(), infos[i].original_id.as_str()) {
                    assert(base_index(bv, infos@[i as int].original_id@) == Some(j as int));
                    return (base[j].1.clone(), base[j].2.clone());
                }
                j = j + 1;
            }
            assert(bv.skip(m as int).len() == 0);
            return (String::new(), String::new());
        }
        i = i + 1;
    }
    assert(infos@.skip(n as int).len() == 0);
    (String::new(), String::new())
}

/// `{name}({job})` as a string.
pub(crate) fn with_job_exec(name: &str, job: &str) -> (r: String)
    ensures
        r@ == with_job(name@, job@),
{
    let mut s = to_owned(name);
    push_str(&mut s, "(");
    push_str(&mut s, job);
    push_str(&mut s, ")");
    s
}

/// Adds the operators of the variant entries (see `cost_patches`).
fn build_patches<N>(
    rows: Vec<CostPatchRow<N>>,
    infos: &Vec<PatchInfo>,
    custom: &StrMap,
    ops: &mut Vec<RawOperatorCost<N>>,
    names: &mut StrMap,
)
    requires
        ids_distinct(cost_views(old(ops)@)),
        no_modules(cost_views(old(ops)@)),
    ensures
        ({
            let base = cost_views(old(ops)@).map_values(|o: CostOpV<N>| base_entry(o));
            let st = CostState { ops: cost_views(old(ops)@), name_to_id: old(names)@, cn_to_ja: seq![] };
            let out = cost_patches(rows@, infos@, base, custom@, st);
            &&& cost_views(final(ops)@) == out.ops
            &&& final(names)@ == out.name_to_id
        }),
        ids_distinct(cost_views(final(ops)@)),
        no_modules(cost_views(final(ops)@)),
{
    let base = base_entries(ops);
    let ghost bv = base@.map_values(|e: (String, String, String)| (e.0@, e.1@, e.2@));
    let ghost st = CostState { ops: cost_views(ops@), name_to_id: names@, cn_to_ja: seq![] };
    let ghost orig = rows@;
    assert(orig.take(0) =~= Seq::<CostPatchRow<N>>::empty());
    for row in it: rows.into_iter()
        invariant
            orig == it.seq(),
            bv == base@.map_values(|e: (String, String, String)| (e.0@, e.1@, e.2@)),
            cost_views(ops@) == cost_patches(orig.take(it.index() as int), infos@, bv, custom@, st).ops,
            names@ == cost_patches(orig.take(it.index() as int), infos@, bv, custom@, st).name_to_id,
            ids_distinct(cost_views(ops@)),
            no_modules(cost_views(ops@)),
    {
        let ghost i = it.index() as int;
        let ghost r0 = row;
        assert(orig.take(i + 1).drop_last() =~= orig.take(i));
        assert(orig.take(i + 1).last() == r0);
        let ghost s = cost_patches(orig.take(i), infos@, bv, custom@, st);
        let CostPatchRow { key, cn, jp } = row;
        let cn_only = jp.is_none();
        let src = match jp {
            Some(j) => j,
            None => cn,
        };
        let prof = clone_opt(&src.profession);
        match prof {
            None => {},
            Some(p) => {
                let job = job_ja(p.as_str());
                let (on, ocn) = find_original(infos, &base, key.as_str());
                let name = with_job_exec(on.as_str(), job);
                let cn_name = with_job_exec(ocn.as_str(), job);
                let is_recent = cn_only || custom.get(cn_name.as_str()).is_some();
                names.insert(name.clone(), key.clone());
                let stars = stars_of(&src.rarity);
                let op = RawOperatorCost {
                    id: key,
                    name,
                    cn_name,
                    stars,
                    cn_only,
                    is_patch: true,
                    is_recent,
                    phases: src.phases,
                    skills: src.skills,
                    all_skill_lvlup: src.all_skill_lvlup,
                    modules: Vec::new(),
                };
                assert(op@.modules =~= Seq::<ModuleV<N>>::empty());
                assert(patch_op(r0, infos@, bv, custom@) == Some(op@));
                proof {
                    lemma_upsert(s.ops, op@);
                }
                upsert_op(ops, op);
            },
        }
    }
    assert(orig.take(orig.len() as int) =~= orig);
}

// ---------------------------------------------------------------------------
// Modules
// ---------------------------------------------------------------------------

/// The module that a module entry gives the operator with id `id`: entries
/// with a cost table, a non-empty type and that operator's id.
pub open spec fn equip_module<N>(e: CostEquipRow<N>, id: Seq<char>) -> Option<ModuleV<N>> {
    match e.item_cost {
        Some(costs) => match e.type_name2 {
            Some(t) => match e.char_id {
                Some(c) => if t@.len() > 0 && c@ == id {
                    Some(ModuleV { eq_type: t@, cn_only: !e.in_jp, phase_costs: costs })
                } else {
                    None
                },
                None => None,
            },
            None => None,
        },
        None => None,
    }
}

/// The modules the entries give the operator with id `id`, in entry order.
pub open spec fn modules_for<N>(equips: Seq<CostEquipRow<N>>, id: Seq<char>) -> Seq<ModuleV<N>>
    decreases equips.len(),
{
    if equips.len() == 0 {
        seq![]
    } else {
        let p = modules_for(equips.drop_last(), id);
        match equip_module(equips.last(), id) {
            Some(m) => p.push(m),
            None => p,
        }
    }
}

/// Modules ordered by type.
pub open spec fn module_le<N>() -> spec_fn(ModuleV<N>, ModuleV<N>) -> bool {
    |a: ModuleV<N>, b: ModuleV<N>| text_le(a.eq_type, b.eq_type)
}

/// The modules of the operator with id `id`, stably sorted by type.
pub open spec fn sorted_modules<N>(equips: Seq<CostEquipRow<N>>, id: Seq<char>) -> Seq<ModuleV<N>> {
    insertion_sort(modules_for(equips, id), module_le())
}

/// The operator with its modules.
pub open spec fn with_op_modules<N>(o: CostOpV<N>, equips: Seq<CostEquipRow<N>>) -> CostOpV<N> {
    CostOpV {
        id: o.id,
        name: o.name,
        cn_name: o.cn_name,
        stars: o.stars,
        cn_only: o.cn_only,
        is_patch: o.is_patch,
        is_recent: o.is_recent,
        phases: o.phases,
        skills: o.skills,
        all_skill_lvlup: o.all_skill_lvlup,
        modules: sorted_modules(equips, o.id),
    }
}

/// Every operator with its modules.
pub open spec fn with_modules<N>(ops: Seq<CostOpV<N>>, equips: Seq<CostEquipRow<N>>) -> Seq<CostOpV<N>> {
    ops.map_values(|o: CostOpV<N>| with_op_modules(o, equips))
}

/// The first position of an operator with id `id`, found by a scan.
pub(crate) fn find_op<N>(ops: &Vec<RawOperatorCost<N>>, id: &str) -> (r: Option<usize>)
    ensures
        r matches Some(j) ==> j < ops@.len() && op_index(cost_views(ops@), id@) == Some(j as int),
        r is None ==> op_index(cost_views(ops@), id@) is None,
{
    let ghost v = cost_views(ops@);
    proof {
        lemma_op_index(v, id@);
    }
    let n = ops.len();
    for j in 0..n
        invariant
            n == ops@.len(),
            v == cost_views(ops@),
            forall|q: int| 0 <= q < j ==> v[q].id != id@,
    {
        if str_eq(ops[j].id.as_str(), id) {
            proof {
                lemma_op_index(v, id@);
            }
            assert(v[j as int].id == id@);
            return Some(j);
        }
    }
    proof {
        lemma_op_index(v, id@);
    }
    None
}

/// The position after the last module whose type comes no later than `t`.
fn module_slot<N>(mods: &Vec<RawModule<N>>, t: &str) -> (k: usize)
    ensures
        k <= mods@.len(),
        k == 0 || text_le(mods@[k - 1].eq_type@, t@),
        forall|j: int| k <= j < mods@.len() ==> !text_le(#[trigger] mods@[j].eq_type@, t@),
{
    let mut k = mods.len();
    while k > 0 && !text_le_exec(mods[k - 1].eq_type.as_str(), t)
        invariant
            k <= mods@.len(),
            forall|j: int| k <= j < mods@.len() ==> !text_le(#[trigger] mods@[j].eq_type@, t@),
        decreases k,
    {
        k = k - 1;
    }
    k
}

/// Adds to each operator the modules that the module entries give it,
/// sorted by type (see `with_modules`).
fn build_modules<N>(equips: Vec<CostEquipRow<N>>, ops: &mut Vec<RawOperatorCost<N>>)
    requires
        ids_distinct(cost_views(old(ops)@)),
        no_modules(cost_views(old(ops)@)),
    ensures
        cost_views(final(ops)@) == with_modules(cost_views(old(ops)@), equips@),
{
    proof {
        reveal_strlit("");
    }
    let ghost base = cost_views(ops@);
    let ghost orig = equips@;
    assert(orig.take(0) =~= Seq::<CostEquipRow<N>>::empty());
    assert forall|q: int| 0 <= q < base.len() implies #[trigger] with_modules(base, orig.take(0))[q]
        == base[q] by {
        assert(base[q].modules =~= Seq::<ModuleV<N>>::empty());
        assert(modules_for(orig.take(0), base[q].id) =~= Seq::<ModuleV<N>>::empty());
    }
    assert(with_modules(base, orig.take(0)) =~= base);
    for e in it: equips.into_iter()
        invariant
            orig == it.seq(),
            base.len() == ops@.len(),
            ids_distinct(base),
            cost_views(ops@) == with_modules(base, orig.take(it.index() as int)),
    {
        proof {
            reveal_strlit("");
        }
        let ghost i = it.index() as int;
        let ghost e0 = e;
        let ghost before = cost_views(ops@);
        assert forall|q: int| 0 <= q < base.len() implies before[q].id == #[trigger] base[q].id by {
            assert(before[q] == with_op_modules(base[q], orig.take(i)));
        }
        assert(orig.take(i + 1).drop_last() =~= orig.take(i));
        assert(orig.take(i + 1).last() == e0);
        let CostEquipRow { equip_id, item_cost, type_name2, char_id, in_jp } = e;
        let mut placed: Option<usize> = None;
        match item_cost {
            None => {},
            Some(costs) => match type_name2 {
                None => {},
                Some(t) => match char_id {
                    None => {},
                    Some(c) => if !str_eq(t.as_str(), "") {
                        let found = find_op(ops, c.as_str());
                        match found {
                            None => {
                                proof {
                                    lemma_op_index(before, c@);
                                }
                            },
                            Some(j) => {
                                proof {
                                    lemma_op_index(before, c@);
                                }
                                let k = module_slot(&ops[j].modules, t.as_str());
                                let ghost old_mods = ops@[j as int].modules@.map_values(
                                    |m: RawModule<N>| m@,
                                );
                                let m = RawModule { eq_type: t, cn_only: !in_jp, phase_costs: costs };
                                let ghost mv = m@;
                                assert(t@.len() > 0) by {
                                    if t@.len() == 0 {
                                        assert(t@ =~= ""@);
                                    }
                                }
                                assert(op_index(before, c@) matches Some(x) && x == j);
                                assert(c@ == before[j as int].id);
                                assert(equip_module(e0, before[j as int].id) == Some(mv));
                                proof {
                                    lemma_insert_sorted_at(old_mods, mv, module_le(), k as int);
                                    lemma_insertion_sort_push(
                                        modules_for(orig.take(i), before[j as int].id),
                                        mv,
                                        module_le(),
                                    );
                                }
                                ops[j].modules.insert(k, m);
                                assert(ops@[j as int].modules@.map_values(|m: RawModule<N>| m@)
                                    =~= old_mods.take(k as int).push(mv) + old_mods.skip(k as int));
                                placed = Some(j);
                            },
                        }
                    },
                },
            },
        }
        let ghost now = cost_views(ops@);
        let ghost target = with_modules(base, orig.take(i + 1));
        assert forall|q: int| 0 <= q < base.len() implies #[trigger] now[q] == target[q] by {
            if placed != Some(q as usize) {
                if let Some(j) = placed {
                    assert(base[q].id != base[j as int].id);
                }
                assert(equip_module(e0, base[q].id) is None);
                assert(modules_for(orig.take(i + 1), base[q].id) == modules_for(orig.take(i), base[q].id));
            }
        }
        assert(now =~= target);
    }
    assert(orig.take(orig.len() as int) =~= orig);
}

// ---------------------------------------------------------------------------
// The whole table
// ---------------------------------------------------------------------------

/// What is built from the three tables (see `build_characters`,
/// `build_patches`, `build_modules`): the character entries' operators, then
/// the variants' (whose originals are looked up among the former), then each
/// operator's modules.
pub open spec fn operator_data_spec<N>(tables: CostTables<N>, custom: Seq<(Seq<char>, Seq<char>)>) -> CostState<N> {
    let c = cost_chars(tables.chars@, custom);
    let p = match tables.patches {
        Some(pt) => cost_patches(
            pt.chars@,
            pt.infos@,
            c.ops.map_values(|o: CostOpV<N>| base_entry(o)),
            custom,
            CostState { ops: c.ops, name_to_id: c.name_to_id, cn_to_ja: seq![] },
        ),
        None => c,
    };
    CostState { ops: with_modules(p.ops, tables.equips@), name_to_id: p.name_to_id, cn_to_ja: c.cn_to_ja }
}

/// The operators and their material costs, with the names to look them up
/// by.
pub struct OperatorData<N> {
    cn_to_ja: StrMap,
    /// In table order; no id occurs twice.
    pub operators: Vec<RawOperatorCost<N>>,
    pub name_to_id: StrMap,
}

impl<N> View for OperatorData<N> {
    type V = CostState<N>;

    closed spec fn view(&self) -> CostState<N> {
        CostState { ops: cost_views(self.operators@), name_to_id: self.name_to_id@, cn_to_ja: self.cn_to_ja@ }
    }
}

/// Which operators a name completion offers.
pub enum CostQuery {
    /// Operators with skill masteries: four stars or more.
    Master,
    /// Operators with a promotion ranking: four stars or more, no variant.
    Elite,
    /// Operators with modules.
    Module,
}

/// Whether an operator is offered for a query.
pub open spec fn query_ok<N>(q: CostQuery, o: CostOpV<N>) -> bool {
    match q {
        CostQuery::Master => o.stars >= 4,
        CostQuery::Elite => o.stars >= 4 && !o.is_patch,
        CostQuery::Module => o.modules.len() > 0,
    }
}

/// The first `limit` operator names that contain `partial` and are offered
/// for the query, in order.
pub open spec fn completions<N>(ops: Seq<CostOpV<N>>, partial: Seq<char>, limit: nat, q: CostQuery) -> Seq<
    Seq<char>,
>
    decreases ops.len(),
{
    if ops.len() == 0 {
        seq![]
    } else {
        let p = completions(ops.drop_last(), partial, limit, q);
        let o = ops.last();
        if p.len() < limit && has_sub(o.name, partial) && query_ok(q, o) {
            p.push(o.name)
        } else {
            p
        }
    }
}

impl<N> OperatorData<N> {
    /// Builds the operators from the three tables and the custom names of
    /// operators the Japanese tables lack (see `operator_data_spec`).
    pub fn build(tables: CostTables<N>, custom: &StrMap) -> (r: OperatorData<N>)
        ensures
            r@ == operator_data_spec(tables, custom@),
            ids_distinct(r@.ops),
    {
        let ghost t0 = tables;
        let CostTables { chars, patches, equips } = tables;
        let (mut ops, mut names, cn_to_ja) = build_characters(chars, custom);
        let ghost c = cost_chars(t0.chars@, custom@);
        match patches {
            Some(pt) => {
                let CostPatchTables { chars: pchars, infos } = pt;
                build_patches(pchars, &infos, custom, &mut ops, &mut names);
            },
            None => {},
        }
        let ghost mid = cost_views(ops@);
        proof {
            lemma_with_modules_ids(mid, equips@);
        }
        build_modules(equips, &mut ops);
        OperatorData { cn_to_ja, operators: ops, name_to_id: names }
    }

    /// No operators and no names.
    pub fn empty_for_test() -> (r: OperatorData<N>)
        ensures
            r@.ops.len() == 0,
            r@.name_to_id.len() == 0,
            r@.cn_to_ja.len() == 0,
    {
        OperatorData { cn_to_ja: StrMap::new(), operators: Vec::new(), name_to_id: StrMap::new() }
    }

    /// The Japanese name of a mainland operator name; the name itself when
    /// it has none.
    pub fn to_ja<'a>(&'a self, cn_name: &'a str) -> (r: &'a str)
        ensures
            r@ == match lookup(self@.cn_to_ja, cn_name@) {
                Some(j) => j,
                None => cn_name@,
            },
    {
        match self.cn_to_ja.get(cn_name) {
            Some(j) => j.as_str(),
            None => cn_name,
        }
    }

    /// The operator named `name`.
    pub fn get_by_name(&self, name: &str) -> (r: Option<&RawOperatorCost<N>>)
        ensures
            match lookup(self@.name_to_id, name@) {
                None => r is None,
                Some(id) => match op_index(self@.ops, id) {
                    Some(i) => r matches Some(o) && o@ == self@.ops[i],
                    None => r is None,
                },
            },
    {
        match self.name_to_id.get(name) {
            None => None,
            Some(id) => match find_op(&self.operators, id.as_str()) {
                Some(j) => Some(&self.operators[j]),
                None => None,
            },
        }
    }

    /// The operator with id `id`.
    pub fn get(&self, id: &str) -> (r: Option<&RawOperatorCost<N>>)
        ensures
            match op_index(self@.ops, id@) {
                Some(i) => r matches Some(o) && o@ == self@.ops[i],
                None => r is None,
            },
    {
        match find_op(&self.operators, id) {
            Some(j) => Some(&self.operators[j]),
            None => None,
        }
    }

    /// The first `limit` names containing `partial` offered for `q` (see
    /// `completions`).
    fn autocomplete(&self, partial: &str, limit: usize, q: CostQuery) -> (r: Vec<String>)
        ensures
            views(r@) == completions(self@.ops, partial@, limit as nat, q),
    {
        let ghost v = cost_views(self.operators@);
        let mut out: Vec<String> = Vec::new();
        let n = self.operators.len();
        assert(v.take(0) =~= Seq::<CostOpV<N>>::empty());
        for i in 0..n
            invariant
                n == self.operators@.len(),
                v == cost_views(self.operators@),
                views(out@) == completions(v.take(i as int), partial@, limit as nat, q),
        {
            assert(v.take(i + 1).drop_last() =~= v.take(i as int));
            assert(v.take(i + 1).last() == v[i as int]);
            let op = &self.operators[i];
            let ok = match q {
                CostQuery::Master => op.stars >= 4,
                CostQuery::Elite => op.stars >= 4 && !op.is_patch,
                CostQuery::Module => op.modules.len() > 0,
            };
            if out.len() < limit && contains(op.name.as_str(), partial) && ok {
                let ghost before = views(out@);
                out.push(op.name.clone());
                assert(views(out@) =~= before.push(v[i as int].name));
            }
        }
        assert(v.take(n as int) =~= v);
        out
    }

    /// Names to complete for a mastery-cost question: operators of four
    /// stars or more.
    pub fn autocomplete_master_cost(&self, partial: &str, limit: usize) -> (r: Vec<String>)
        ensures
            views(r@) == completions(self@.ops, partial@, limit as nat, CostQuery::Master),
    {
        self.autocomplete(partial, limit, CostQuery::Master)
    }

    /// Names to complete for a promotion-cost question: operators of four
    /// stars or more that are not variants.
    pub fn autocomplete_elite_cost(&self, partial: &str, limit: usize) -> (r: Vec<String>)
        ensures
            views(r@) == completions(self@.ops, partial@, limit as nat, CostQuery::Elite),
    {
        self.autocomplete(partial, limit, CostQuery::Elite)
    }

    /// Names to complete for a module-cost question: operators with modules.
    pub fn autocomplete_module_cost(&self, partial: &str, limit: usize) -> (r: Vec<String>)
        ensures
            views(r@) == completions(self@.ops, partial@, limit as nat, CostQuery::Module),
    {
        self.autocomplete(partial, limit, CostQuery::Module)
    }
}

/// Giving operators their modules keeps ids, and so their distinctness.
proof fn lemma_with_modules_ids<N>(ops: Seq<CostOpV<N>>, equips: Seq<CostEquipRow<N>>)
    ensures
        ids_distinct(ops) ==> ids_distinct(with_modules(ops, equips)),
{
    let w = with_modules(ops, equips);
    assert forall|i: int| 0 <= i < ops.len() implies #[trigger] w[i].id == ops[i].id by {}
}

/// Whether the operator has modules.
pub fn has_unique_eq<N>(op: &RawOperatorCost<N>) -> (r: bool)
    ensures
        r == (op@.modules.len() > 0),
{
    op.modules.len() > 0
}

/// Whether one of the operator's modules is mainland-only.
pub fn has_cn_only_ueq<N>(op: &RawOperatorCost<N>) -> (r: bool)
    ensures
        r == exists|i: int| 0 <= i < op@.modules.len() && op@.modules[i].cn_only,
{
    let n = op.modules.len();
    for i in 0..n
        invariant
            n == op.modules@.len(),
            forall|q: int| 0 <= q < i ==> !op@.modules[q].cn_only,
    {
        if op.modules[i].cn_only {
            assert(op@.modules[i as int].cn_only);
            return true;
        }
    }
    false
}

/// What the cost checks need to know of an operator.
pub fn operator_shape<N>(op: &RawOperatorCost<N>) -> (r: crate::operator_cost_calc::checks::OperatorShape)
    ensures
        r.stars == op.stars,
        r.skill_count == op.skills@.len(),
        r.phase_count == op.phases@.len(),
        r.module_count == op.modules@.len(),
        r.is_patch == op.is_patch,
{
    crate::operator_cost_calc::checks::OperatorShape {
        stars: op.stars,
        skill_count: op.skills.len(),
        phase_count: op.phases.len(),
        module_count: op.modules.len(),
        is_patch: op.is_patch,
    }
}

/// The skill ids of a cost operator, in order.
pub open spec fn skill_ids_of<M>(o: CostOpV<M>) -> Seq<Seq<char>> {
    o.skills@.map_values(|s: RawSkill<M>| s.skill_id@)
}

/// The skill ids of a cost operator's skills.
pub(crate) fn skill_id_list<M>(skills: &Vec<RawSkill<M>>) -> (r: Vec<String>)
    ensures
        views(r@) == skills@.map_values(|s: RawSkill<M>| s.skill_id@),
{
    let mut r: Vec<String> = Vec::new();
    let n = skills.len();
    for i in 0..n
        invariant
            n == skills@.len(),
            views(r@) == skills@.take(i as int).map_values(|s: RawSkill<M>| s.skill_id@),
    {
        let ghost before = views(r@);
        r.push(skills[i].skill_id.clone());
        assert(views(r@) =~= before.push(skills@[i as int].skill_id@));
        assert(skills@.take(i + 1).map_values(|s: RawSkill<M>| s.skill_id@) =~= skills@.take(
            i as int,
        ).map_values(|s: RawSkill<M>| s.skill_id@).push(skills@[i as int].skill_id@));
    }
    assert(skills@.take(n as int) =~= skills@);
    r
}

// ---------------------------------------------------------------------------
// Laws
// ---------------------------------------------------------------------------

/// Modules are totally preordered by type.
pub proof fn lemma_module_le_total_preorder<N>()
    ensures
        total_preorder(module_le::<N>()),
{
    assert forall|a: ModuleV<N>, b: ModuleV<N>| #[trigger] (module_le::<N>())(a, b) || (module_le::<N>())(
        b,
        a,
    ) by {
        lemma_text_le_total(a.eq_type, b.eq_type);
    }
    assert forall|a: ModuleV<N>, b: ModuleV<N>, c: ModuleV<N>| #[trigger] (module_le::<N>())(a, b)
        && #[trigger] (module_le::<N>())(b, c) implies (module_le::<N>())(a, c) by {
        lemma_text_le_transitive(a.eq_type, b.eq_type, c.eq_type);
    }
}

/// Each built operator's modules are sorted by type, and are exactly the
/// modules that the module entries give it.
pub proof fn lemma_cost_modules_sorted<N>(tables: CostTables<N>, custom: Seq<(Seq<char>, Seq<char>)>, i: int)
    requires
        0 <= i < operator_data_spec(tables, custom).ops.len(),
    ensures
        sorted_by(operator_data_spec(tables, custom).ops[i].modules, module_le()),
        operator_data_spec(tables, custom).ops[i].modules.to_multiset() == modules_for(
            tables.equips@,
            operator_data_spec(tables, custom).ops[i].id,
        ).to_multiset(),
{
    let o = operator_data_spec(tables, custom).ops[i];
    lemma_module_le_total_preorder::<N>();
    lemma_insertion_sort_props(modules_for(tables.equips@, o.id), module_le());
}

/// The (key, Japanese name) pairs of the character entries that the
/// Japanese table has with a name, in order.
pub open spec fn jp_names<N>(rows: Seq<CostCharRow<N>>) -> Seq<(Seq<char>, Seq<char>)>
    decreases rows.len(),
{
    if rows.len() == 0 {
        seq![]
    } else {
        let p = jp_names(rows.drop_last());
        let r = rows.last();
        match r.jp {
            Some(j) => match j.name {
                Some(n) => p.push((r.key@, n@)),
                None => p,
            },
            None => p,
        }
    }
}

/// The character entries as the operator-name table reads them.
pub open spec fn char_entries<N>(rows: Seq<CostCharRow<N>>) -> Seq<(Seq<char>, bool, Option<Seq<char>>)> {
    rows.map_values(|r: CostCharRow<N>| (r.key@, r.not_obtainable, opt_view(r.cn.name)))
}

/// The Japanese name that the Japanese table gives an entry.
pub open spec fn jp_name_of<N>(r: CostCharRow<N>) -> Option<Seq<char>> {
    match r.jp {
        Some(j) => opt_view(j.name),
        None => None,
    }
}

/// With distinct keys, looking an entry's key up among the Japanese names
/// gives that entry's Japanese name.
proof fn lemma_jp_lookup<N>(rows: Seq<CostCharRow<N>>, i: int)
    requires
        rows.map_values(|r: CostCharRow<N>| r.key@).no_duplicates(),
        0 <= i < rows.len(),
    ensures
        lookup(jp_names(rows), rows[i].key@) == jp_name_of(rows[i]),
    decreases rows.len(),
{
    let d = rows.drop_last();
    let last = rows.last();
    let keys = rows.map_values(|r: CostCharRow<N>| r.key@);
    assert(d.map_values(|r: CostCharRow<N>| r.key@) =~= keys.drop_last());
    if i == rows.len() - 1 {
        assert forall|q: int| 0 <= q < d.len() implies d[q].key@ != last.key@ by {
            assert(keys[q] != keys[rows.len() - 1]);
        }
        lemma_lookup_absent(jp_names(d), d, last.key@);
        if let Some(j) = last.jp {
            if let Some(n) = j.name {
                lemma_lookup_after_insert(jp_names(d), last.key@, n@, last.key@);
            }
        }
    } else {
        assert(keys[i] != keys[rows.len() - 1]);
        assert(d[i] == rows[i]);
        lemma_jp_lookup(d, i);
        if let Some(j) = last.jp {
            if let Some(n) = j.name {
                lemma_lookup_after_insert(jp_names(d), last.key@, n@, rows[i].key@);
            }
        }
    }
}

/// A key no entry has is not among the Japanese names.
proof fn lemma_lookup_absent<N>(names: Seq<(Seq<char>, Seq<char>)>, rows: Seq<CostCharRow<N>>, k: Seq<char>)
    requires
        names == jp_names(rows),
        forall|q: int| 0 <= q < rows.len() ==> rows[q].key@ != k,
    ensures
        lookup(names, k) is None,
    decreases rows.len(),
{
    if rows.len() > 0 {
        let d = rows.drop_last();
        let last = rows.last();
        assert forall|q: int| 0 <= q < d.len() implies d[q].key@ != k by {
            assert(d[q] == rows[q]);
        }
        lemma_lookup_absent(jp_names(d), d, k);
        if let Some(j) = last.jp {
            if let Some(n) = j.name {
                lemma_lookup_after_insert(jp_names(d), last.key@, n@, k);
            }
        }
    }
}

/// The mainland-to-Japanese names built with the operator costs are those
/// of the operator-name table built from the same character tables (keys
/// being distinct, as in a table object).
pub proof fn lemma_cn_to_ja_agrees<N>(rows: Seq<CostCharRow<N>>, custom: Seq<(Seq<char>, Seq<char>)>)
    requires
        rows.map_values(|r: CostCharRow<N>| r.key@).no_duplicates(),
    ensures
        cost_chars(rows, custom).cn_to_ja == cn_to_ja_spec(char_entries(rows), jp_names(rows), custom),
{
    lemma_cn_to_ja_prefix(rows, custom, rows.len() as int);
    assert(rows.take(rows.len() as int) =~= rows);
}

/// `lemma_cn_to_ja_agrees` for the first `n` entries, against all the
/// Japanese names.
proof fn lemma_cn_to_ja_prefix<N>(rows: Seq<CostCharRow<N>>, custom: Seq<(Seq<char>, Seq<char>)>, n: int)
    requires
        rows.map_values(|r: CostCharRow<N>| r.key@).no_duplicates(),
        0 <= n <= rows.len(),
    ensures
        cost_chars(rows.take(n), custom).cn_to_ja == cn_to_ja_spec(
            char_entries(rows.take(n)),
            jp_names(rows),
            custom,
        ),
    decreases n,
{
    if n == 0 {
        assert(char_entries(rows.take(0)) =~= Seq::<(Seq<char>, bool, Option<Seq<char>>)>::empty());
    } else {
        lemma_cn_to_ja_prefix(rows, custom, n - 1);
        let t = rows.take(n);
        assert(t.drop_last() =~= rows.take(n - 1));
        assert(char_entries(t).drop_last() =~= char_entries(rows.take(n - 1)));
        assert(t.last() == rows[n - 1]);
        assert(char_entries(t).last() == (rows[n - 1].key@, rows[n - 1].not_obtainable, opt_view(
            rows[n - 1].cn.name,
        )));
        lemma_jp_lookup(rows, n - 1);
    }
}

} // verus!
