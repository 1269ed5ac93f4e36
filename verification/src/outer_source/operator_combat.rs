//! Operator combat data as read from the character, promotion-variant and
//! module tables of both servers, for the frame-kill calculator: which
//! operators exist, their names, professions, positions and factions, and
//! which modules each has. The attack values are of the caller's number
//! type `N`; they are carried, never read.
use vstd::prelude::*;
use crate::fk_kill_calc::catalog::{lemma_text_le_total, lemma_text_le_transitive, text_le, text_le_exec};
use crate::sorting::{
    insertion_sort, lemma_insert_sorted_at, lemma_insertion_sort_props, lemma_insertion_sort_push, sorted_by,
    total_preorder,
};
use crate::text::str_eq;
use super::names::{is_char_key, is_char_key_spec, job_ja, lookup, StrMap};
use super::operator_data::{
    clone_opt, find_original, job_name, opt_view, original_names, with_job, with_job_exec,
    PatchInfo,
};

verus! {

// ---------------------------------------------------------------------------
// Data
// ---------------------------------------------------------------------------

/// One module and the attack it adds at each stage.
#[derive(Debug)]
pub struct RawModuleCombat<N> {
    pub eq_id: String,
    /// The module's type ("X", "Y", ...).
    pub eq_type: String,
    pub name: String,
    pub atk_by_level: Vec<N>,
}

/// One operator's combat data.
#[derive(Debug)]
pub struct RawOperatorCombat<N> {
    pub id: String,
    pub name: String,
    pub cn_name: String,
    /// The profession id, as the mainland table writes it ("WARRIOR", ...).
    pub profession: String,
    /// "MELEE" or "RANGED".
    pub position: String,
    /// The faction id, empty when there is none.
    pub nation_id: String,
    /// The attack at the highest promotion and level, with full trust.
    pub atk_base: N,
    /// The attack added by potentials.
    pub atk_potential: N,
    /// Sorted by type.
    pub modules: Vec<RawModuleCombat<N>>,
}

/// A module as the specifications see it.
pub struct ModuleCombatV<N> {
    pub eq_id: Seq<char>,
    pub eq_type: Seq<char>,
    pub name: Seq<char>,
    pub atk_by_level: Seq<N>,
}

impl<N> View for RawModuleCombat<N> {
    type V = ModuleCombatV<N>;

    open spec fn view(&self) -> ModuleCombatV<N> {
        ModuleCombatV {
            eq_id: self.eq_id@,
            eq_type: self.eq_type@,
            name: self.name@,
            atk_by_level: self.atk_by_level@,
        }
    }
}

/// An operator as the specifications see it.
pub struct CombatOpV<N> {
    pub id: Seq<char>,
    pub name: Seq<char>,
    pub cn_name: Seq<char>,
    pub profession: Seq<char>,
    pub position: Seq<char>,
    pub nation_id: Seq<char>,
    pub atk_base: N,
    pub atk_potential: N,
    pub modules: Seq<ModuleCombatV<N>>,
}

impl<N> View for RawOperatorCombat<N> {
    type V = CombatOpV<N>;

    open spec fn view(&self) -> CombatOpV<N> {
        CombatOpV {
            id: self.id@,
            name: self.name@,
            cn_name: self.cn_name@,
            profession: self.profession@,
            position: self.position@,
            nation_id: self.nation_id@,
            atk_base: self.atk_base,
            atk_potential: self.atk_potential,
            modules: self.modules@.map_values(|m: RawModuleCombat<N>| m@),
        }
    }
}

/// The operators as the specifications see them.
pub open spec fn combat_views<N>(s: Seq<RawOperatorCombat<N>>) -> Seq<CombatOpV<N>> {
    s.map_values(|o: RawOperatorCombat<N>| o@)
}

// ---------------------------------------------------------------------------
// The tables as read
// ---------------------------------------------------------------------------

/// What one server's table says of an operator.
#[derive(Debug)]
pub struct CombatFields<N> {
    pub name: Option<String>,
    pub profession: Option<String>,
    pub position: Option<String>,
    pub nation_id: Option<String>,
    pub atk_base: N,
    pub atk_potential: N,
}

/// One entry of the mainland character table, with the Japanese table's
/// entry for the same key when it has one.
#[derive(Debug)]
pub struct CombatCharRow<N> {
    pub key: String,
    /// Whether the mainland entry is marked as not obtainable.
    pub not_obtainable: bool,
    pub cn: CombatFields<N>,
    pub jp: Option<CombatFields<N>>,
}

/// One promotion variant of the mainland variant table, with the Japanese
/// table's entry for the same key when it has one.
#[derive(Debug)]
pub struct CombatPatchRow<N> {
    pub key: String,
    pub cn: CombatFields<N>,
    pub jp: Option<CombatFields<N>>,
}

/// The variant table: its variants and the originals they belong to.
#[derive(Debug)]
pub struct CombatPatchTables<N> {
    pub chars: Vec<CombatPatchRow<N>>,
    pub infos: Vec<PatchInfo>,
}

/// One entry of the mainland module table, with what the Japanese module
/// table and the two stage tables say of the same module.
#[derive(Debug)]
pub struct CombatEquipRow<N> {
    pub equip_id: String,
    pub type_name2: Option<String>,
    pub char_id: Option<String>,
    /// The Japanese module name, when the Japanese table has one.
    pub jp_name: Option<String>,
    /// The mainland module name, when the mainland table has one.
    pub cn_name: Option<String>,
    /// The attack by stage of the Japanese stage table, when it has the
    /// module.
    pub jp_atk: Option<Vec<N>>,
    /// The attack by stage of the mainland stage table, when it has the
    /// module.
    pub cn_atk: Option<Vec<N>>,
}

/// The three tables.
#[derive(Debug)]
pub struct CombatTables<N> {
    pub chars: Vec<CombatCharRow<N>>,
    /// `None` when the variant table lacks its variants or its originals.
    pub patches: Option<CombatPatchTables<N>>,
    pub equips: Vec<CombatEquipRow<N>>,
}

// ---------------------------------------------------------------------------
// Specification
// ---------------------------------------------------------------------------

/// The first position of an operator with id `id`.
pub open spec fn combat_index<N>(ops: Seq<CombatOpV<N>>, id: Seq<char>) -> Option<int>
    decreases ops.len(),
{
    if ops.len() == 0 {
        None
    } else if ops[0].id == id {
        Some(0)
    } else {
        match combat_index(ops.drop_first(), id) {
            Some(i) => Some(i + 1),
            None => None,
        }
    }
}

/// No id occurs twice.
pub open spec fn combat_ids_distinct<N>(ops: Seq<CombatOpV<N>>) -> bool {
    forall|a: int, b: int| 0 <= a < b < ops.len() ==> #[trigger] ops[a].id != #[trigger] ops[b].id
}

/// `op` stored under its id: in place of the operator with that id, else
/// added last.
pub open spec fn combat_upsert<N>(ops: Seq<CombatOpV<N>>, op: CombatOpV<N>) -> Seq<CombatOpV<N>> {
    match combat_index(ops, op.id) {
        Some(i) => ops.update(i, op),
        None => ops.push(op),
    }
}

/// Every operator has no modules yet.
pub open spec fn combat_no_modules<N>(ops: Seq<CombatOpV<N>>) -> bool {
    forall|i: int| 0 <= i < ops.len() ==> (#[trigger] ops[i]).modules.len() == 0
}

/// The operators in table order and the names to ids.
pub struct CombatState<N> {
    pub ops: Seq<CombatOpV<N>>,
    pub name_to_id: Seq<(Seq<char>, Seq<char>)>,
}

/// The fields an entry is read from: the Japanese ones when the Japanese
/// table has the entry, else the mainland ones.
pub open spec fn combat_source<N>(cn: CombatFields<N>, jp: Option<CombatFields<N>>) -> CombatFields<N> {
    match jp {
        Some(j) => j,
        None => cn,
    }
}

/// The Japanese name of a character entry: the Japanese table's, else the
/// custom name of its mainland name.
pub open spec fn combat_ja_name<N>(row: CombatCharRow<N>, custom: Seq<(Seq<char>, Seq<char>)>) -> Option<
    Seq<char>,
> {
    let jp_name = match row.jp {
        Some(j) => opt_view(j.name),
        None => None,
    };
    match jp_name {
        Some(n) => Some(n),
        None => lookup(custom, row.cn.name->0@),
    }
}

/// The operator of a character entry, when it is an obtainable operator
/// with a mainland name and its fields give a profession and a position.
pub open spec fn combat_char_op<N>(row: CombatCharRow<N>, custom: Seq<(Seq<char>, Seq<char>)>) -> Option<
    CombatOpV<N>,
> {
    let src = combat_source(row.cn, row.jp);
    if !is_char_key_spec(row.key@) || row.not_obtainable || row.cn.name is None || src.profession is None
        || src.position is None {
        None
    } else {
        let cn_name = row.cn.name->0@;
        Some(
            CombatOpV {
                id: row.key@,
                name: match combat_ja_name(row, custom) {
                    Some(j) => j,
                    None => cn_name,
                },
                cn_name,
                profession: src.profession->0@,
                position: src.position->0@,
                nation_id: match src.nation_id {
                    Some(n) => n@,
                    None => seq![],
                },
                atk_base: src.atk_base,
                atk_potential: src.atk_potential,
                modules: seq![],
            },
        )
    }
}

/// The state after the character entries, in order.
pub open spec fn combat_chars<N>(rows: Seq<CombatCharRow<N>>, custom: Seq<(Seq<char>, Seq<char>)>) -> CombatState<
    N,
>
    decreases rows.len(),
{
    if rows.len() == 0 {
        CombatState { ops: seq![], name_to_id: seq![] }
    } else {
        let st = combat_chars(rows.drop_last(), custom);
        match combat_char_op(rows.last(), custom) {
            None => st,
            Some(op) => CombatState {
                ops: combat_upsert(st.ops, op),
                name_to_id: st.name_to_id.push((op.name, op.id)),
            },
        }
    }
}

/// An operator's id, name and mainland name.
pub open spec fn combat_base_entry<N>(o: CombatOpV<N>) -> (Seq<char>, Seq<char>, Seq<char>) {
    (o.id, o.name, o.cn_name)
}

/// The operator of a variant entry, when its fields give a profession and
/// a position.
pub open spec fn combat_patch_op<N>(
    row: CombatPatchRow<N>,
    infos: Seq<PatchInfo>,
    base: Seq<(Seq<char>, Seq<char>, Seq<char>)>,
) -> Option<CombatOpV<N>> {
    let src = combat_source(row.cn, row.jp);
    match src.profession {
        None => None,
        Some(p) => match src.position {
            None => None,
            Some(pos) => {
                let job = job_name(p@);
                let (on, ocn) = original_names(infos, base, row.key@);
                Some(
                    CombatOpV {
                        id: row.key@,
                        name: with_job(on, job),
                        cn_name: with_job(ocn, job),
                        profession: p@,
                        position: pos@,
                        nation_id: match src.nation_id {
                            Some(n) => n@,
                            None => seq![],
                        },
                        atk_base: src.atk_base,
                        atk_potential: src.atk_potential,
                        modules: seq![],
                    },
                )
            },
        },
    }
}

/// The state after the variant entries, in order, starting from `st`.
pub open spec fn combat_patches<N>(
    rows: Seq<CombatPatchRow<N>>,
    infos: Seq<PatchInfo>,
    base: Seq<(Seq<char>, Seq<char>, Seq<char>)>,
    st: CombatState<N>,
) -> CombatState<N>
    decreases rows.len(),
{
    if rows.len() == 0 {
        st
    } else {
        let s = combat_patches(rows.drop_last(), infos, base, st);
        match combat_patch_op(rows.last(), infos, base) {
            None => s,
            Some(op) => CombatState {
                ops: combat_upsert(s.ops, op),
                name_to_id: s.name_to_id.push((op.name, op.id)),
            },
        }
    }
}

/// The module that a module entry gives the operator with id `id`: entries
/// with a non-empty type and that operator's id. Its name is the Japanese
/// one, else the mainland one, else empty; its attack is the Japanese stage
/// table's, else the mainland one's, else none.
pub open spec fn combat_equip_module<N>(e: CombatEquipRow<N>, id: Seq<char>) -> Option<ModuleCombatV<N>> {
    match e.type_name2 {
        Some(t) => match e.char_id {
            Some(c) => if t@.len() > 0 && c@ == id {
                Some(
                    ModuleCombatV {
                        eq_id: e.equip_id@,
                        eq_type: t@,
                        name: match e.jp_name {
                            Some(n) => n@,
                            None => match e.cn_name {
                                Some(n) => n@,
                                None => seq![],
                            },
                        },
                        atk_by_level: match e.jp_atk {
                            Some(a) => a@,
                            None => match e.cn_atk {
                                Some(a) => a@,
                                None => seq![],
                            },
                        },
                    },
                )
            } else {
                None
            },
            None => None,
        },
        None => None,
    }
}

/// The modules the entries give the operator with id `id`, in entry order.
pub open spec fn combat_modules_for<N>(equips: Seq<CombatEquipRow<N>>, id: Seq<char>) -> Seq<ModuleCombatV<N>>
    decreases equips.len(),
{
    if equips.len() == 0 {
        seq![]
    } else {
        let p = combat_modules_for(equips.drop_last(), id);
        match combat_equip_module(equips.last(), id) {
            Some(m) => p.push(m),
            None => p,
        }
    }
}

/// Modules ordered by type.
pub open spec fn combat_module_le<N>() -> spec_fn(ModuleCombatV<N>, ModuleCombatV<N>) -> bool {
    |a: ModuleCombatV<N>, b: ModuleCombatV<N>| text_le(a.eq_type, b.eq_type)
}

/// The operator with its modules, stably sorted by type.
pub open spec fn combat_with_op_modules<N>(o: CombatOpV<N>, equips: Seq<CombatEquipRow<N>>) -> CombatOpV<N> {
    CombatOpV {
        id: o.id,
        name: o.name,
        cn_name: o.cn_name,
        profession: o.profession,
        position: o.position,
        nation_id: o.nation_id,
        atk_base: o.atk_base,
        atk_potential: o.atk_potential,
        modules: insertion_sort(combat_modules_for(equips, o.id), combat_module_le()),
    }
}

/// Every operator with its modules.
pub open spec fn combat_with_modules<N>(ops: Seq<CombatOpV<N>>, equips: Seq<CombatEquipRow<N>>) -> Seq<
    CombatOpV<N>,
> {
    ops.map_values(|o: CombatOpV<N>| combat_with_op_modules(o, equips))
}

/// What is built from the three tables: the character entries' operators,
/// then the variants' (whose originals are looked up among the former),
/// then each operator's modules.
pub open spec fn operator_combat_spec<N>(tables: CombatTables<N>, custom: Seq<(Seq<char>, Seq<char>)>) -> CombatState<
    N,
> {
    let c = combat_chars(tables.chars@, custom);
    let p = match tables.patches {
        Some(pt) => combat_patches(pt.chars@, pt.infos@, c.ops.map_values(|o: CombatOpV<N>| combat_base_entry(o)), c),
        None => c,
    };
    CombatState { ops: combat_with_modules(p.ops, tables.equips@), name_to_id: p.name_to_id }
}

// ---------------------------------------------------------------------------
// Proofs
// ---------------------------------------------------------------------------

/// `combat_index` finds the first operator with the id, and nothing when
/// there is none.
pub proof fn lemma_combat_index<N>(ops: Seq<CombatOpV<N>>, id: Seq<char>)
    ensures
        match combat_index(ops, id) {
            Some(i) => 0 <= i < ops.len() && ops[i].id == id && forall|q: int| 0 <= q < i ==> ops[q].id
                != id,
            None => forall|q: int| 0 <= q < ops.len() ==> ops[q].id != id,
        },
    decreases ops.len(),
{
    if ops.len() > 0 {
        lemma_combat_index(ops.drop_first(), id);
        assert forall|q: int| 1 <= q < ops.len() implies ops[q] == ops.drop_first()[q - 1] by {}
    }
}

/// Storing an operator keeps the ids distinct and adds no module.
pub proof fn lemma_combat_upsert<N>(ops: Seq<CombatOpV<N>>, op: CombatOpV<N>)
    requires
        combat_ids_distinct(ops),
    ensures
        combat_ids_distinct(combat_upsert(ops, op)),
        combat_no_modules(ops) && op.modules.len() == 0 ==> combat_no_modules(combat_upsert(ops, op)),
{
    lemma_combat_index(ops, op.id);
}

/// Giving operators their modules keeps ids, and so their distinctness.
proof fn lemma_combat_with_modules_ids<N>(ops: Seq<CombatOpV<N>>, equips: Seq<CombatEquipRow<N>>)
    ensures
        combat_ids_distinct(ops) ==> combat_ids_distinct(combat_with_modules(ops, equips)),
{
    let w = combat_with_modules(ops, equips);
    assert forall|i: int| 0 <= i < ops.len() implies #[trigger] w[i].id == ops[i].id by {}
}

// ---------------------------------------------------------------------------
// Implementation
// ---------------------------------------------------------------------------

/// Stores `op` under its id (see `combat_upsert`).
fn upsert_combat<N>(ops: &mut Vec<RawOperatorCombat<N>>, op: RawOperatorCombat<N>)
    requires
        combat_ids_distinct(combat_views(old(ops)@)),
    ensures
        combat_views(final(ops)@) == combat_upsert(combat_views(old(ops)@), op@),
        combat_ids_distinct(combat_views(final(ops)@)),
{
    let ghost before = combat_views(ops@);
    let n = ops.len();
    let mut j: usize = 0;
    while j < n
        invariant
            n == ops@.len(),
            before == combat_views(ops@),
            before == combat_views(old(ops)@),
            combat_ids_distinct(before),
            forall|q: int| 0 <= q < j ==> before[q].id != op.id@,
        decreases n - j,
    {
        if str_eq(ops[j].id.as_str(), op.id.as_str()) {
            proof {
                lemma_combat_index(before, op.id@);
                lemma_combat_upsert(before, op@);
            }
            assert(before[j as int].id == op.id@);
            assert(combat_index(before, op.id@) == Some(j as int));
            let ghost v = op@;
            ops[j] = op;
            assert(combat_views(ops@) =~= before.update(j as int, v));
            return;
        }
        j = j + 1;
    }
    proof {
        lemma_combat_index(before, op.id@);
        lemma_combat_upsert(before, op@);
    }
    let ghost v = op@;
    ops.push(op);
    assert(combat_views(ops@) =~= before.push(v));
}

/// The first position of an operator with id `id`, found by a scan.
fn find_combat<N>(ops: &Vec<RawOperatorCombat<N>>, id: &str) -> (r: Option<usize>)
    ensures
        r matches Some(j) ==> j < ops@.len() && combat_index(combat_views(ops@), id@) == Some(j as int),
        r is None ==> combat_index(combat_views(ops@), id@) is None,
{
    let ghost v = combat_views(ops@);
    let n = ops.len();
    for j in 0..n
        invariant
            n == ops@.len(),
            v == combat_views(ops@),
            forall|q: int| 0 <= q < j ==> v[q].id != id@,
    {
        if str_eq(ops[j].id.as_str(), id) {
            proof {
                lemma_combat_index(v, id@);
            }
            assert(v[j as int].id == id@);
            return Some(j);
        }
    }
    proof {
        lemma_combat_index(v, id@);
    }
    None
}

/// Adds the operators of the character entries (see `combat_chars`).
fn build_combat_characters<N>(rows: Vec<CombatCharRow<N>>, custom: &StrMap) -> (r: (
    Vec<RawOperatorCombat<N>>,
    StrMap,
))
    ensures
        combat_views(r.0@) == combat_chars(rows@, custom@).ops,
        r.1@ == combat_chars(rows@, custom@).name_to_id,
        combat_ids_distinct(combat_views(r.0@)),
        combat_no_modules(combat_views(r.0@)),
{
    let ghost orig = rows@;
    let mut ops: Vec<RawOperatorCombat<N>> = Vec::new();
    let mut names = StrMap::new();
    assert(orig.take(0) =~= Seq::<CombatCharRow<N>>::empty());
    assert(combat_views(ops@) =~= Seq::<CombatOpV<N>>::empty());
    for row in it: rows.into_iter()
        invariant
            orig == it.seq(),
            combat_views(ops@) == combat_chars(orig.take(it.index() as int), custom@).ops,
            names@ == combat_chars(orig.take(it.index() as int), custom@).name_to_id,
            combat_ids_distinct(combat_views(ops@)),
            combat_no_modules(combat_views(ops@)),
    {
        let ghost i = it.index() as int;
        let ghost r0 = row;
        assert(orig.take(i + 1).drop_last() =~= orig.take(i));
        assert(orig.take(i + 1).last() == r0);
        let ghost st = combat_chars(orig.take(i), custom@);
        let CombatCharRow { key, not_obtainable, cn, jp } = row;
        let cn_name = clone_opt(&cn.name);
        if is_char_key(key.as_str()) && !not_obtainable && cn_name.is_some() {
            let cn_name = cn_name.unwrap();
            let jp_name = match &jp {
                Some(j) => clone_opt(&j.name),
                None => None,
            };
            let ja = match jp_name {
                Some(n) => Some(n),
                None => match custom.get(cn_name.as_str()) {
                    Some(c) => Some(c.clone()),
                    None => None,
                },
            };
            assert(opt_view(ja) == combat_ja_name(r0, custom@));
            let src = match jp {
                Some(j) => j,
                None => cn,
            };
            let prof = clone_opt(&src.profession);
            let pos = clone_opt(&src.position);
            if prof.is_some() && pos.is_some() {
                let name = match ja {
                    Some(j) => j,
                    None => cn_name.clone(),
                };
                let nation_id = match &src.nation_id {
                    Some(n) => n.clone(),
                    None => String::new(),
                };
                names.insert(name.clone(), key.clone());
                let op = RawOperatorCombat {
                    id: key,
                    name,
                    cn_name,
                    profession: prof.unwrap(),
                    position: pos.unwrap(),
                    nation_id,
                    atk_base: src.atk_base,
                    atk_potential: src.atk_potential,
                    modules: Vec::new(),
                };
                assert(op@.modules =~= Seq::<ModuleCombatV<N>>::empty());
                assert(combat_char_op(r0, custom@) == Some(op@));
                proof {
                    lemma_combat_upsert(st.ops, op@);
                }
                upsert_combat(&mut ops, op);
            }
        }
    }
    assert(orig.take(orig.len() as int) =~= orig);
    (ops, names)
}

/// The ids, names and mainland names of the operators.
fn combat_base_entries<N>(ops: &Vec<RawOperatorCombat<N>>) -> (r: Vec<(String, String, String)>)
    ensures
        r@.map_values(|e: (String, String, String)| (e.0@, e.1@, e.2@)) == combat_views(ops@).map_values(
            |o: CombatOpV<N>| combat_base_entry(o),
        ),
{
    let mut r: Vec<(String, String, String)> = Vec::new();
    let n = ops.len();
    for i in 0..n
        invariant
            n == ops@.len(),
            r@.map_values(|e: (String, String, String)| (e.0@, e.1@, e.2@)) == combat_views(
                ops@.take(i as int),
            ).map_values(|o: CombatOpV<N>| combat_base_entry(o)),
    {
        let ghost before = r@.map_values(|e: (String, String, String)| (e.0@, e.1@, e.2@));
        r.push((ops[i].id.clone(), ops[i].name.clone(), ops[i].cn_name.clone()));
        assert(r@.map_values(|e: (String, String, String)| (e.0@, e.1@, e.2@)) =~= before.push(
            combat_base_entry(ops@[i as int]@),
        ));
        assert(combat_views(ops@.take(i + 1)).map_values(|o: CombatOpV<N>| combat_base_entry(o))
            =~= combat_views(ops@.take(i as int)).map_values(|o: CombatOpV<N>| combat_base_entry(o)).push(
            combat_base_entry(ops@[i as int]@),
        ));
    }
    assert(ops@.take(n as int) =~= ops@);
    r
}

/// Adds the operators of the variant entries (see `combat_patches`).
fn build_combat_patches<N>(
    rows: Vec<CombatPatchRow<N>>,
    infos: &Vec<PatchInfo>,
    ops: &mut Vec<RawOperatorCombat<N>>,
    names: &mut StrMap,
)
    requires
        combat_ids_distinct(combat_views(old(ops)@)),
        combat_no_modules(combat_views(old(ops)@)),
    ensures
        ({
            let base = combat_views(old(ops)@).map_values(|o: CombatOpV<N>| combat_base_entry(o));
            let st = CombatState { ops: combat_views(old(ops)@), name_to_id: old(names)@ };
            let out = combat_patches(rows@, infos@, base, st);
            &&& combat_views(final(ops)@) == out.ops
            &&& final(names)@ == out.name_to_id
        }),
        combat_ids_distinct(combat_views(final(ops)@)),
        combat_no_modules(combat_views(final(ops)@)),
{
    let base = combat_base_entries(ops);
    let ghost bv = base@.map_values(|e: (String, String, String)| (e.0@, e.1@, e.2@));
    let ghost st = CombatState { ops: combat_views(ops@), name_to_id: names@ };
    let ghost orig = rows@;
    assert(orig.take(0) =~= Seq::<CombatPatchRow<N>>::empty());
    for row in it: rows.into_iter()
        invariant
            orig == it.seq(),
            bv == base@.map_values(|e: (String, String, String)| (e.0@, e.1@, e.2@)),
            combat_views(ops@) == combat_patches(orig.take(it.index() as int), infos@, bv, st).ops,
            names@ == combat_patches(orig.take(it.index() as int), infos@, bv, st).name_to_id,
            combat_ids_distinct(combat_views(ops@)),
            combat_no_modules(combat_views(ops@)),
    {
        let ghost i = it.index() as int;
        let ghost r0 = row;
        assert(orig.take(i + 1).drop_last() =~= orig.take(i));
        assert(orig.take(i + 1).last() == r0);
        let ghost s = combat_patches(orig.take(i), infos@, bv, st);
        let CombatPatchRow { key, cn, jp } = row;
        let src = match jp {
            Some(j) => j,
            None => cn,
        };
        let prof = clone_opt(&src.profession);
        let pos = clone_opt(&src.position);
        match prof {
            None => {},
            Some(p) => match pos {
                None => {},
                Some(position) => {
                    let job = job_ja(p.as_str());
                    let (on, ocn) = find_original(infos, &base, key.as_str());
                    let name = with_job_exec(on.as_str(), job);
                    let cn_name = with_job_exec(ocn.as_str(), job);
                    let nation_id = match &src.nation_id {
                        Some(n) => n.clone(),
                        None => String::new(),
                    };
                    names.insert(name.clone(), key.clone());
                    let op = RawOperatorCombat {
                        id: key,
                        name,
                        cn_name,
                        profession: p,
                        position,
                        nation_id,
                        atk_base: src.atk_base,
                        atk_potential: src.atk_potential,
                        modules: Vec::new(),
                    };
                    assert(op@.modules =~= Seq::<ModuleCombatV<N>>::empty());
                    assert(combat_patch_op(r0, infos@, bv) == Some(op@));
                    proof {
                        lemma_combat_upsert(s.ops, op@);
                    }
                    upsert_combat(ops, op);
                },
            },
        }
    }
    assert(orig.take(orig.len() as int) =~= orig);
}

/// The position after the last module whose type comes no later than `t`.
fn combat_module_slot<N>(mods: &Vec<RawModuleCombat<N>>, t: &str) -> (k: usize)
    ensures
        k <= mods@.len(),
        k == 0 || text_le(mods@[k - 1].eq_type@, t@),
        forall|j: int| k <= j < mods@.len() ==> !text_le(#[trigger] mods@[j].eq_type@, t@),
{
    let mut k = mods.len();
    while k > 0 && !text_le_exec(mods[k - 1].eq_type.as_str(), t)
        invariant
            k <= mods@.len(),
            forall|j: int| k <= j < mods@.len() ==> !text_le(#[trigger] mods@[j].eq_type@, t@),
        decreases k,
    {
        k = k - 1;
    }
    k
}

/// Adds to each operator the modules that the module entries give it,
/// sorted by type (see `combat_with_modules`).
fn build_combat_modules<N>(equips: Vec<CombatEquipRow<N>>, ops: &mut Vec<RawOperatorCombat<N>>)
    requires
        combat_ids_distinct(combat_views(old(ops)@)),
        combat_no_modules(combat_views(old(ops)@)),
    ensures
        combat_views(final(ops)@) == combat_with_modules(combat_views(old(ops)@), equips@),
{
    let ghost base = combat_views(ops@);
    let ghost orig = equips@;
    assert(orig.take(0) =~= Seq::<CombatEquipRow<N>>::empty());
    assert forall|q: int| 0 <= q < base.len() implies #[trigger] combat_with_modules(base, orig.take(0))[q]
        == base[q] by {
        assert(base[q].modules =~= Seq::<ModuleCombatV<N>>::empty());
        assert(combat_modules_for(orig.take(0), base[q].id) =~= Seq::<ModuleCombatV<N>>::empty());
    }
    assert(combat_with_modules(base, orig.take(0)) =~= base);
    for e in it: equips.into_iter()
        invariant
            orig == it.seq(),
            base.len() == ops@.len(),
            combat_ids_distinct(base),
            combat_views(ops@) == combat_with_modules(base, orig.take(it.index() as int)),
    {
        proof {
            reveal_strlit("");
        }
        let ghost i = it.index() as int;
        let ghost e0 = e;
        let ghost before = combat_views(ops@);
        assert forall|q: int| 0 <= q < base.len() implies before[q].id == #[trigger] base[q].id by {
            assert(before[q] == combat_with_op_modules(base[q], orig.take(i)));
        }
        assert(orig.take(i + 1).drop_last() =~= orig.take(i));
        assert(orig.take(i + 1).last() == e0);
        let CombatEquipRow { equip_id, type_name2, char_id, jp_name, cn_name, jp_atk, cn_atk } = e;
        let mut placed: Option<usize> = None;
        match type_name2 {
            None => {},
            Some(t) => match char_id {
                None => {},
                Some(c) => if !str_eq(t.as_str(), "") {
                    let found = find_combat(ops, c.as_str());
                    match found {
                        None => {
                            proof {
                                lemma_combat_index(before, c@);
                            }
                        },
                        Some(j) => {
                            proof {
                                lemma_combat_index(before, c@);
                            }
                            assert(t@.len() > 0) by {
                                if t@.len() == 0 {
                                    assert(t@ =~= ""@);
                                }
                            }
                            let k = combat_module_slot(&ops[j].modules, t.as_str());
                            let ghost old_mods = ops@[j as int].modules@.map_values(
                                |m: RawModuleCombat<N>| m@,
                            );
                            let name = match jp_name {
                                Some(n) => n,
                                None => match cn_name {
                                    Some(n) => n,
                                    None => String::new(),
                                },
                            };
                            let atk_by_level = match jp_atk {
                                Some(a) => a,
                                None => match cn_atk {
                                    Some(a) => a,
                                    None => Vec::new(),
                                },
                            };
                            let m = RawModuleCombat { eq_id: equip_id, eq_type: t, name, atk_by_level };
                            let ghost mv = m@;
                            assert(combat_equip_module(e0, before[j as int].id) == Some(mv));
                            proof {
                                lemma_insert_sorted_at(old_mods, mv, combat_module_le(), k as int);
                                lemma_insertion_sort_push(
                                    combat_modules_for(orig.take(i), before[j as int].id),
                                    mv,
                                    combat_module_le(),
                                );
                            }
                            ops[j].modules.insert(k, m);
                            assert(ops@[j as int].modules@.map_values(|m: RawModuleCombat<N>| m@)
                                =~= old_mods.take(k as int).push(mv) + old_mods.skip(k as int));
                            placed = Some(j);
                        },
                    }
                },
            },
        }
        let ghost now = combat_views(ops@);
        let ghost target = combat_with_modules(base, orig.take(i + 1));
        assert forall|q: int| 0 <= q < base.len() implies #[trigger] now[q] == target[q] by {
            if placed != Some(q as usize) {
                if let Some(j) = placed {
                    assert(base[q].id != base[j as int].id);
                }
                assert(combat_equip_module(e0, base[q].id) is None);
                assert(combat_modules_for(orig.take(i + 1), base[q].id) == combat_modules_for(
                    orig.take(i),
                    base[q].id,
                ));
            }
        }
        assert(now =~= target);
    }
    assert(orig.take(orig.len() as int) =~= orig);
}

// ---------------------------------------------------------------------------
// The whole table
// ---------------------------------------------------------------------------

/// The operators' combat data, with the names to look them up by.
pub struct OperatorCombat<N> {
    /// In table order; no id occurs twice.
    pub operators: Vec<RawOperatorCombat<N>>,
    pub name_to_id: StrMap,
}

impl<N> View for OperatorCombat<N> {
    type V = CombatState<N>;

    open spec fn view(&self) -> CombatState<N> {
        CombatState { ops: combat_views(self.operators@), name_to_id: self.name_to_id@ }
    }
}

impl<N> OperatorCombat<N> {
    /// Builds the operators from the three tables and the custom names of
    /// operators the Japanese tables lack (see `operator_combat_spec`).
    pub fn build(tables: CombatTables<N>, custom: &StrMap) -> (r: OperatorCombat<N>)
        ensures
            r@ == operator_combat_spec(tables, custom@),
            combat_ids_distinct(r@.ops),
    {
        let CombatTables { chars, patches, equips } = tables;
        let (mut ops, mut names) = build_combat_characters(chars, custom);
        match patches {
            Some(pt) => {
                let CombatPatchTables { chars: pchars, infos } = pt;
                build_combat_patches(pchars, &infos, &mut ops, &mut names);
            },
            None => {},
        }
        proof {
            lemma_combat_with_modules_ids(combat_views(ops@), equips@);
        }
        build_combat_modules(equips, &mut ops);
        OperatorCombat { operators: ops, name_to_id: names }
    }

    /// No operators and no names.
    pub fn empty_for_test() -> (r: OperatorCombat<N>)
        ensures
            r@.ops.len() == 0,
            r@.name_to_id.len() == 0,
    {
        OperatorCombat { operators: Vec::new(), name_to_id: StrMap::new() }
    }

    /// The operator named `name`.
    pub fn get_by_name(&self, name: &str) -> (r: Option<&RawOperatorCombat<N>>)
        ensures
            match lookup(self@.name_to_id, name@) {
                None => r is None,
                Some(id) => match combat_index(self@.ops, id) {
                    Some(i) => r matches Some(o) && o@ == self@.ops[i],
                    None => r is None,
                },
            },
    {
        match self.name_to_id.get(name) {
            None => None,
            Some(id) => match find_combat(&self.operators, id.as_str()) {
                Some(j) => Some(&self.operators[j]),
                None => None,
            },
        }
    }

    /// The operator with id `id`.
    pub fn get(&self, id: &str) -> (r: Option<&RawOperatorCombat<N>>)
        ensures
            match combat_index(self@.ops, id@) {
                Some(i) => r matches Some(o) && o@ == self@.ops[i],
                None => r is None,
            },
    {
        match find_combat(&self.operators, id) {
            Some(j) => Some(&self.operators[j]),
            None => None,
        }
    }
}

// ---------------------------------------------------------------------------
// Laws
// ---------------------------------------------------------------------------

/// Modules are totally preordered by type.
pub proof fn lemma_combat_module_le_total_preorder<N>()
    ensures
        total_preorder(combat_module_le::<N>()),
{
    assert forall|a: ModuleCombatV<N>, b: ModuleCombatV<N>| #[trigger] (combat_module_le::<N>())(a, b)
        || (combat_module_le::<N>())(b, a) by {
        lemma_text_le_total(a.eq_type, b.eq_type);
    }
    assert forall|a: ModuleCombatV<N>, b: ModuleCombatV<N>, c: ModuleCombatV<N>| #[trigger]
        (combat_module_le::<N>())(a, b) && #[trigger] (combat_module_le::<N>())(b, c) implies (combat_module_le::<
        N,
    >())(a, c) by {
        lemma_text_le_transitive(a.eq_type, b.eq_type, c.eq_type);
    }
}

/// Each built operator's modules are sorted by type, and are exactly the
/// modules that the module entries give it.
pub proof fn lemma_combat_modules_sorted<N>(
    tables: CombatTables<N>,
    custom: Seq<(Seq<char>, Seq<char>)>,
    i: int,
)
    requires
        0 <= i < operator_combat_spec(tables, custom).ops.len(),
    ensures
        sorted_by(operator_combat_spec(tables, custom).ops[i].modules, combat_module_le()),
        operator_combat_spec(tables, custom).ops[i].modules.to_multiset() == combat_modules_for(
            tables.equips@,
            operator_combat_spec(tables, custom).ops[i].id,
        ).to_multiset(),
{
    let o = operator_combat_spec(tables, custom).ops[i];
    lemma_combat_module_le_total_preorder::<N>();
    lemma_insertion_sort_props(combat_modules_for(tables.equips@, o.id), combat_module_le());
}

} // verus!
