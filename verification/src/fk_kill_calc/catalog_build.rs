//! The frame-kill catalog: the sheet's operators, resolved against the
//! combat and cost data, with each skill's values taken from the game data
//! and corrected by hand where the corrections say so. Numbers are of the
//! caller's type `N`; they are carried, never read.
use vstd::prelude::*;
use crate::fk_data_search::search::{skill_pos, skill_pos_exec};
use crate::outer_source::fk_data::{
    lemma_first_key_distinct, rows_view, sheet_entries, sheet_names, sheet_rows_of, FkRowV,
    FkSheetData, FkSheetRow,
};
use crate::outer_source::names::{lookup, StrMap};
use crate::outer_source::operator_combat::{combat_index, CombatOpV, ModuleCombatV, OperatorCombat, RawModuleCombat};
use crate::outer_source::operator_data::{
    clone_opt, op_index, opt_view, skill_id_list, skill_ids_of, CostOpV, OperatorData,
};
use crate::outer_source::skill_data::{skill_name_of, SkillData};
use crate::text::{str_eq, to_owned, views};
use super::catalog::{normalize_operator_name, normalized_name};
use super::dto::{BufferKind, BufferScope, DamageType, ValueSource, Valued};
use super::overrides::{variant_views, variants_spec, OverrideVariant, OverrideVariantV, Overrides};
use super::tags::{damage_guess, guess_damage_type, operator_tags, tags_for};

verus! {

// ---------------------------------------------------------------------------
// Data
// ---------------------------------------------------------------------------

/// What a skill's game data gives: its multiplier, the multiplier
/// candidates (keys and values), and its self ATK buff.
pub struct SkillDefaults<N> {
    pub multiplier: N,
    pub candidates: Vec<(String, N)>,
    pub self_atk_pct: N,
}

/// Defaults as the specifications see them.
pub struct SkillDefaultsV<N> {
    pub multiplier: N,
    pub candidates: Seq<(Seq<char>, N)>,
    pub self_atk_pct: N,
}

/// Key-value pairs as the specifications see them.
pub open spec fn pair_views<N>(s: Seq<(String, N)>) -> Seq<(Seq<char>, N)> {
    s.map_values(|c: (String, N)| (c.0@, c.1))
}

impl<N> View for SkillDefaults<N> {
    type V = SkillDefaultsV<N>;

    open spec fn view(&self) -> SkillDefaultsV<N> {
        SkillDefaultsV {
            multiplier: self.multiplier,
            candidates: pair_views(self.candidates@),
            self_atk_pct: self.self_atk_pct,
        }
    }
}

/// One frame-kill entry: one variant of one skill.
#[derive(Debug)]
pub struct FkEntry<N> {
    /// The skill as the sheet writes it.
    pub skill_num: String,
    /// The skill's name, else the skill as written.
    pub skill_label: String,
    /// The variant's label, when the skill has corrected variants.
    pub variant_label: Option<String>,
    pub fk_num: String,
    pub fk_err: String,
    pub detail: String,
    pub last_edited: String,
    pub multiplier: Valued<N>,
    pub multiplier_candidates: Vec<(String, N)>,
    pub self_atk_pct: Valued<N>,
    pub hits: Valued<u32>,
    pub damage_type: Valued<DamageType>,
    pub note: Option<String>,
}

/// An entry as the specifications see it.
pub struct FkEntryV<N> {
    pub skill_num: Seq<char>,
    pub skill_label: Seq<char>,
    pub variant_label: Option<Seq<char>>,
    pub fk_num: Seq<char>,
    pub fk_err: Seq<char>,
    pub detail: Seq<char>,
    pub last_edited: Seq<char>,
    pub multiplier: Valued<N>,
    pub multiplier_candidates: Seq<(Seq<char>, N)>,
    pub self_atk_pct: Valued<N>,
    pub hits: Valued<u32>,
    pub damage_type: Valued<DamageType>,
    pub note: Option<Seq<char>>,
}

impl<N> View for FkEntry<N> {
    type V = FkEntryV<N>;

    open spec fn view(&self) -> FkEntryV<N> {
        FkEntryV {
            skill_num: self.skill_num@,
            skill_label: self.skill_label@,
            variant_label: opt_view(self.variant_label),
            fk_num: self.fk_num@,
            fk_err: self.fk_err@,
            detail: self.detail@,
            last_edited: self.last_edited@,
            multiplier: self.multiplier,
            multiplier_candidates: pair_views(self.multiplier_candidates@),
            self_atk_pct: self.self_atk_pct,
            hits: self.hits,
            damage_type: self.damage_type,
            note: opt_view(self.note),
        }
    }
}

/// The entries as the specifications see them.
pub open spec fn entry_views<N>(s: Seq<FkEntry<N>>) -> Seq<FkEntryV<N>> {
    s.map_values(|e: FkEntry<N>| e@)
}

/// A module of the catalog: no costs, the attack it adds by stage.
#[derive(Debug)]
pub struct CatalogModule<N> {
    pub id: String,
    pub module_type: String,
    pub name: String,
    pub atk_by_level: Vec<N>,
}

/// A module as the specifications see it.
pub struct CatalogModuleV<N> {
    pub id: Seq<char>,
    pub module_type: Seq<char>,
    pub name: Seq<char>,
    pub atk_by_level: Seq<N>,
}

impl<N> View for CatalogModule<N> {
    type V = CatalogModuleV<N>;

    open spec fn view(&self) -> CatalogModuleV<N> {
        CatalogModuleV {
            id: self.id@,
            module_type: self.module_type@,
            name: self.name@,
            atk_by_level: self.atk_by_level@,
        }
    }
}

/// One operator of the catalog.
#[derive(Debug)]
pub struct CatalogOperator<N> {
    pub id: String,
    /// The name as the sheet writes it.
    pub name: String,
    pub tags: Vec<String>,
    pub atk_base: N,
    pub atk_potential: N,
    pub modules: Vec<CatalogModule<N>>,
    pub fk_entries: Vec<FkEntry<N>>,
}

/// An operator as the specifications see it.
pub struct CatalogOperatorV<N> {
    pub id: Seq<char>,
    pub name: Seq<char>,
    pub tags: Seq<Seq<char>>,
    pub atk_base: N,
    pub atk_potential: N,
    pub modules: Seq<CatalogModuleV<N>>,
    pub fk_entries: Seq<FkEntryV<N>>,
}

impl<N> View for CatalogOperator<N> {
    type V = CatalogOperatorV<N>;

    open spec fn view(&self) -> CatalogOperatorV<N> {
        CatalogOperatorV {
            id: self.id@,
            name: self.name@,
            tags: views(self.tags@),
            atk_base: self.atk_base,
            atk_potential: self.atk_potential,
            modules: self.modules@.map_values(|m: CatalogModule<N>| m@),
            fk_entries: entry_views(self.fk_entries@),
        }
    }
}

/// A buff. The catalog has none yet.
#[derive(Debug)]
pub struct Buffer<N> {
    pub id: String,
    pub name: String,
    pub kind: BufferKind,
    pub value: N,
    pub scope: BufferScope,
    /// Whether it targets one enemy (else an area).
    pub single_target: bool,
}

/// The whole catalog.
#[derive(Debug)]
pub struct Catalog<N> {
    pub operators: Vec<CatalogOperator<N>>,
    pub buffers: Vec<Buffer<N>>,
}

/// A built catalog and the sheet names that could not be resolved.
#[derive(Debug)]
pub struct CatalogBuild<N> {
    pub catalog: Catalog<N>,
    pub skipped: Vec<String>,
}

// ---------------------------------------------------------------------------
// Specification
// ---------------------------------------------------------------------------

/// The defaults set last for `id`, if any.
pub open spec fn defaults_for<N>(table: Seq<(Seq<char>, SkillDefaultsV<N>)>, id: Seq<char>) -> Option<
    SkillDefaultsV<N>,
>
    decreases table.len(),
{
    if table.len() == 0 {
        None
    } else if table.last().0 == id {
        Some(table.last().1)
    } else {
        defaults_for(table.drop_last(), id)
    }
}

/// The defaults of a row's skill: its table entry, else the fallback (also
/// when the skill is unknown).
pub open spec fn row_defaults<N>(
    table: Seq<(Seq<char>, SkillDefaultsV<N>)>,
    fallback: SkillDefaultsV<N>,
    skill_id: Option<Seq<char>>,
) -> SkillDefaultsV<N> {
    match skill_id {
        Some(id) => match defaults_for(table, id) {
            Some(d) => d,
            None => fallback,
        },
        None => fallback,
    }
}

/// The id of the skill numbered `num` ("1" is the first) among `ids`.
pub open spec fn skill_id_of(ids: Seq<Seq<char>>, num: Seq<char>) -> Option<Seq<char>> {
    match skill_pos(ids.len(), num) {
        Some(i) => Some(ids[i]),
        None => None,
    }
}

/// The label of a row's skill: the skill's name when it is known and
/// neither empty nor "Missing", else the skill as written.
pub open spec fn skill_label_of(
    ids: Seq<Seq<char>>,
    sd: Seq<(Seq<char>, (Seq<char>, Seq<char>))>,
    num: Seq<char>,
) -> Seq<char> {
    match skill_id_of(ids, num) {
        Some(id) => {
            let s = skill_name_of(sd, id);
            if s.len() > 0 && s != "Missing"@ {
                s
            } else {
                num
            }
        },
        None => num,
    }
}

/// A value corrected by hand when the correction gives it, else the game
/// data's.
pub open spec fn override_valued<T>(o: Option<T>, d: T) -> Valued<T> {
    match o {
        Some(v) => Valued { value: v, source: ValueSource::Manual },
        None => Valued { value: d, source: ValueSource::Auto },
    }
}

/// The entry of an uncorrected row: every value from the game data, one
/// hit.
pub open spec fn auto_entry<N>(row: FkRowV, label: Seq<char>, d: SkillDefaultsV<N>, dt: DamageType) -> FkEntryV<N> {
    FkEntryV {
        skill_num: row.0,
        skill_label: label,
        variant_label: None,
        fk_num: row.1,
        fk_err: row.2,
        detail: row.3,
        last_edited: row.4,
        multiplier: Valued { value: d.multiplier, source: ValueSource::Auto },
        multiplier_candidates: d.candidates,
        self_atk_pct: Valued { value: d.self_atk_pct, source: ValueSource::Auto },
        hits: Valued { value: 1, source: ValueSource::Auto },
        damage_type: Valued { value: dt, source: ValueSource::Auto },
        note: None,
    }
}

/// The entry of one corrected variant of a row.
pub open spec fn variant_entry<N>(
    row: FkRowV,
    label: Seq<char>,
    d: SkillDefaultsV<N>,
    dt: DamageType,
    v: OverrideVariantV<N>,
) -> FkEntryV<N> {
    FkEntryV {
        skill_num: row.0,
        skill_label: label,
        variant_label: v.label,
        fk_num: row.1,
        fk_err: row.2,
        detail: row.3,
        last_edited: row.4,
        multiplier: override_valued(v.multiplier, d.multiplier),
        multiplier_candidates: d.candidates,
        self_atk_pct: override_valued(v.self_atk_pct, d.self_atk_pct),
        hits: override_valued(v.hits, 1u32),
        damage_type: override_valued(v.damage_type, dt),
        note: v.note,
    }
}

/// The entries of a row: one per corrected variant, else one from the game
/// data.
pub open spec fn row_entries<N>(
    row: FkRowV,
    label: Seq<char>,
    d: SkillDefaultsV<N>,
    dt: DamageType,
    vs: Option<Seq<OverrideVariantV<N>>>,
) -> Seq<FkEntryV<N>> {
    match vs {
        Some(v) => if v.len() > 0 {
            v.map_values(|x: OverrideVariantV<N>| variant_entry(row, label, d, dt, x))
        } else {
            seq![auto_entry(row, label, d, dt)]
        },
        None => seq![auto_entry(row, label, d, dt)],
    }
}

/// The entries of an operator's rows, in order.
pub open spec fn entries_for<N>(
    rows: Seq<FkRowV>,
    op_id: Seq<char>,
    ids: Seq<Seq<char>>,
    sd: Seq<(Seq<char>, (Seq<char>, Seq<char>))>,
    ov: Seq<(Seq<char>, Seq<(Seq<char>, Seq<OverrideVariantV<N>>)>)>,
    table: Seq<(Seq<char>, SkillDefaultsV<N>)>,
    fallback: SkillDefaultsV<N>,
    dt: DamageType,
) -> Seq<FkEntryV<N>>
    decreases rows.len(),
{
    if rows.len() == 0 {
        seq![]
    } else {
        let row = rows.last();
        entries_for(rows.drop_last(), op_id, ids, sd, ov, table, fallback, dt) + row_entries(
            row,
            skill_label_of(ids, sd, row.0),
            row_defaults(table, fallback, skill_id_of(ids, row.0)),
            dt,
            variants_spec(ov, op_id, row.0),
        )
    }
}

/// A combat module in the catalog.
pub open spec fn catalog_module<N>(m: ModuleCombatV<N>) -> CatalogModuleV<N> {
    CatalogModuleV { id: m.eq_id, module_type: m.eq_type, name: m.name, atk_by_level: m.atk_by_level }
}

/// The combat operators' ids by normalized name (a later entry wins).
pub open spec fn normalized_ids(names: Seq<(Seq<char>, Seq<char>)>) -> Seq<(Seq<char>, Seq<char>)> {
    names.map_values(|p: (Seq<char>, Seq<char>)| (normalized_name(p.0), p.1))
}

/// The catalog operator of a sheet entry, when its normalized name names a
/// combat operator that the cost data also has.
pub open spec fn catalog_entry<N, M>(
    name: Seq<char>,
    rows: Seq<FkRowV>,
    index: Seq<(Seq<char>, Seq<char>)>,
    combat: Seq<CombatOpV<N>>,
    cost: Seq<CostOpV<M>>,
    sd: Seq<(Seq<char>, (Seq<char>, Seq<char>))>,
    ov: Seq<(Seq<char>, Seq<(Seq<char>, Seq<OverrideVariantV<N>>)>)>,
    table: Seq<(Seq<char>, SkillDefaultsV<N>)>,
    fallback: SkillDefaultsV<N>,
) -> Option<CatalogOperatorV<N>> {
    match lookup(index, normalized_name(name)) {
        None => None,
        Some(op_id) => match combat_index(combat, op_id) {
            None => None,
            Some(ci) => match op_index(cost, op_id) {
                None => None,
                Some(oi) => {
                    let c = combat[ci];
                    Some(
                        CatalogOperatorV {
                            id: op_id,
                            name,
                            tags: operator_tags(c.profession, c.position, c.nation_id),
                            atk_base: c.atk_base,
                            atk_potential: c.atk_potential,
                            modules: c.modules.map_values(|m: ModuleCombatV<N>| catalog_module(m)),
                            fk_entries: entries_for(
                                rows,
                                op_id,
                                skill_ids_of(cost[oi]),
                                sd,
                                ov,
                                table,
                                fallback,
                                damage_guess(c.profession),
                            ),
                        },
                    )
                },
            },
        },
    }
}

/// The catalog's operators and the skipped names.
pub struct CatalogState<N> {
    pub ops: Seq<CatalogOperatorV<N>>,
    pub skipped: Seq<Seq<char>>,
}

/// The catalog of the sheet entries, in sheet order.
pub open spec fn catalog_spec<N, M>(
    sheet: Seq<(Seq<char>, Seq<FkRowV>)>,
    index: Seq<(Seq<char>, Seq<char>)>,
    combat: Seq<CombatOpV<N>>,
    cost: Seq<CostOpV<M>>,
    sd: Seq<(Seq<char>, (Seq<char>, Seq<char>))>,
    ov: Seq<(Seq<char>, Seq<(Seq<char>, Seq<OverrideVariantV<N>>)>)>,
    table: Seq<(Seq<char>, SkillDefaultsV<N>)>,
    fallback: SkillDefaultsV<N>,
) -> CatalogState<N>
    decreases sheet.len(),
{
    if sheet.len() == 0 {
        CatalogState { ops: seq![], skipped: seq![] }
    } else {
        let st = catalog_spec(sheet.drop_last(), index, combat, cost, sd, ov, table, fallback);
        let e = sheet.last();
        match catalog_entry(e.0, e.1, index, combat, cost, sd, ov, table, fallback) {
            Some(op) => CatalogState { ops: st.ops.push(op), skipped: st.skipped },
            None => CatalogState { ops: st.ops, skipped: st.skipped.push(e.0) },
        }
    }
}

// ---------------------------------------------------------------------------
// Implementation
// ---------------------------------------------------------------------------

/// A copy of the pairs.
fn copy_pairs<N: Copy>(v: &Vec<(String, N)>) -> (r: Vec<(String, N)>)
    ensures
        pair_views(r@) == pair_views(v@),
{
    let mut r: Vec<(String, N)> = Vec::new();
    let n = v.len();
    for i in 0..n
        invariant
            n == v@.len(),
            pair_views(r@) == pair_views(v@.take(i as int)),
    {
        let ghost before = pair_views(r@);
        let k = v[i].0.clone();
        let x: N = v[i].1;
        r.push((k, x));
        assert(pair_views(r@) =~= before.push((v@[i as int].0@, v@[i as int].1)));
        assert(pair_views(v@.take(i + 1)) =~= pair_views(v@.take(i as int)).push(
            (v@[i as int].0@, v@[i as int].1),
        ));
    }
    assert(v@.take(n as int) =~= v@);
    r
}

/// A copy of the values.
fn copy_values<N: Copy>(v: &Vec<N>) -> (r: Vec<N>)
    ensures
        r@ == v@,
{
    let mut r: Vec<N> = Vec::new();
    let n = v.len();
    for i in 0..n
        invariant
            n == v@.len(),
            r@ == v@.take(i as int),
    {
        let x: N = v[i];
        r.push(x);
        assert(r@ =~= v@.take(i + 1));
    }
    assert(v@.take(n as int) =~= v@);
    r
}

/// The defaults table as the specifications see it.
pub open spec fn table_views<N>(t: Seq<(String, SkillDefaults<N>)>) -> Seq<(Seq<char>, SkillDefaultsV<N>)> {
    t.map_values(|e: (String, SkillDefaults<N>)| (e.0@, e.1@))
}

/// The defaults of a row's skill (see `row_defaults`).
fn defaults_of<'a, N>(
    table: &'a Vec<(String, SkillDefaults<N>)>,
    fallback: &'a SkillDefaults<N>,
    skill_id: Option<&str>,
) -> (r: &'a SkillDefaults<N>)
    ensures
        r@ == row_defaults(
            table_views(table@),
            fallback@,
            match skill_id {
                Some(s) => Some(s@),
                None => None,
            },
        ),
{
    match skill_id {
        None => fallback,
        Some(id) => {
            let ghost tv = table_views(table@);
            let mut i = table.len();
            assert(tv.take(i as int) =~= tv);
            while i > 0
                invariant
                    i <= table@.len(),
                    tv == table_views(table@),
                    skill_id matches Some(s) && s@ == id@,
                    defaults_for(tv, id@) == defaults_for(tv.take(i as int), id@),
                decreases i,
            {
                let ghost t = tv.take(i as int);
                assert(t.drop_last() =~= tv.take(i - 1));
                assert(t.last() == tv[i - 1]);
                if str_eq(table[i - 1].0.as_str(), id) {
                    assert(tv[i - 1] == (table@[i - 1].0@, table@[i - 1].1@));
                    assert(defaults_for(t, id@) == Some(tv[i - 1].1));
                    return &table[i - 1].1;
                }
                i = i - 1;
            }
            fallback
        },
    }
}

/// The label of a row's skill (see `skill_label_of`).
fn skill_label(ids: &Vec<String>, skills: &SkillData, num: &str) -> (r: String)
    ensures
        r@ == skill_label_of(views(ids@), skills@, num@),
{
    proof {
        reveal_strlit("");
    }
    match skill_pos_exec(ids.len(), num) {
        None => to_owned(num),
        Some(i) => {
            let s = skills.get_str(ids[i].as_str());
            if !str_eq(s, "") && !str_eq(s, "Missing") {
                assert(s@.len() > 0) by {
                    if s@.len() == 0 {
                        assert(s@ =~= ""@);
                    }
                }
                to_owned(s)
            } else {
                proof {
                    if s@.len() > 0 && s@ != "Missing"@ {
                        assert(s@ != ""@);
                    }
                }
                to_owned(num)
            }
        },
    }
}

/// The id of the skill numbered `num` (see `skill_id_of`).
fn skill_id_for<'a>(ids: &'a Vec<String>, num: &str) -> (r: Option<&'a str>)
    ensures
        match skill_id_of(views(ids@), num@) {
            Some(id) => r matches Some(s) && s@ == id,
            None => r is None,
        },
{
    match skill_pos_exec(ids.len(), num) {
        None => None,
        Some(i) => Some(ids[i].as_str()),
    }
}

/// Adds the entries of one row (see `row_entries`).
fn push_row_entries<N: Copy>(
    out: &mut Vec<FkEntry<N>>,
    row: &FkSheetRow,
    label: &str,
    d: &SkillDefaults<N>,
    dt: DamageType,
    variants: Option<&Vec<OverrideVariant<N>>>,
)
    ensures
        entry_views(final(out)@) == entry_views(old(out)@) + row_entries(
            row@,
            label@,
            d@,
            dt,
            match variants {
                Some(v) => Some(variant_views(v@)),
                None => None,
            },
        ),
{
    let ghost before = entry_views(out@);
    let ghost rv = row@;
    let ghost vs = match variants {
        Some(v) => Some(variant_views(v@)),
        None => None,
    };
    let has_variants = match variants {
        Some(v) => v.len() > 0,
        None => false,
    };
    if has_variants {
        let v = variants.unwrap();
        let ghost vv = variant_views(v@);
        let n = v.len();
        for j in 0..n
            invariant
                n == v@.len(),
                rv == row@,
                vv == variant_views(v@),
                entry_views(out@) == before + vv.take(j as int).map_values(
                    |x: OverrideVariantV<N>| variant_entry(rv, label@, d@, dt, x),
                ),
        {
            let ghost ob = entry_views(out@);
            let var = &v[j];
            let e = FkEntry {
                skill_num: row.skill_num.clone(),
                skill_label: to_owned(label),
                variant_label: clone_opt(&var.label),
                fk_num: row.fk_num.clone(),
                fk_err: row.fk_err.clone(),
                detail: row.detail.clone(),
                last_edited: row.last_edited.clone(),
                multiplier: Valued::from_override(var.multiplier, d.multiplier),
                multiplier_candidates: copy_pairs(&d.candidates),
                self_atk_pct: Valued::from_override(var.self_atk_pct, d.self_atk_pct),
                hits: Valued::from_override(var.hits, 1),
                damage_type: Valued::from_override(var.damage_type, dt),
                note: clone_opt(&var.note),
            };
            assert(vv[j as int] == var@);
            let ghost want = variant_entry(rv, label@, d@, dt, vv[j as int]);
            assert(e@.multiplier == want.multiplier);
            assert(e@.self_atk_pct == want.self_atk_pct);
            assert(e@.hits == want.hits);
            assert(e@.damage_type == want.damage_type);
            assert(e@.multiplier_candidates == want.multiplier_candidates);
            assert(e@ == want);
            out.push(e);
            assert(entry_views(out@) =~= ob.push(variant_entry(rv, label@, d@, dt, vv[j as int])));
            assert(vv.take(j + 1).map_values(|x: OverrideVariantV<N>| variant_entry(rv, label@, d@, dt, x))
                =~= vv.take(j as int).map_values(
                |x: OverrideVariantV<N>| variant_entry(rv, label@, d@, dt, x),
            ).push(variant_entry(rv, label@, d@, dt, vv[j as int])));
        }
        assert(vv.take(n as int) =~= vv);
    } else {
        let e = FkEntry {
            skill_num: row.skill_num.clone(),
            skill_label: to_owned(label),
            variant_label: None,
            fk_num: row.fk_num.clone(),
            fk_err: row.fk_err.clone(),
            detail: row.detail.clone(),
            last_edited: row.last_edited.clone(),
            multiplier: Valued::auto(d.multiplier),
            multiplier_candidates: copy_pairs(&d.candidates),
            self_atk_pct: Valued::auto(d.self_atk_pct),
            hits: Valued::auto(1),
            damage_type: Valued::auto(dt),
            note: None,
        };
        assert(e@ == auto_entry(rv, label@, d@, dt));
        out.push(e);
        assert(entry_views(out@) =~= before + seq![auto_entry(rv, label@, d@, dt)]);
    }
}

/// The entries of an operator's rows (see `entries_for`).
fn operator_entries<N: Copy>(
    rows: &Vec<FkSheetRow>,
    op_id: &str,
    ids: &Vec<String>,
    skills: &SkillData,
    overrides: &Overrides<N>,
    table: &Vec<(String, SkillDefaults<N>)>,
    fallback: &SkillDefaults<N>,
    dt: DamageType,
) -> (r: Vec<FkEntry<N>>)
    ensures
        entry_views(r@) == entries_for(
            rows_view(rows@),
            op_id@,
            views(ids@),
            skills@,
            overrides@,
            table_views(table@),
            fallback@,
            dt,
        ),
{
    let ghost rv = rows_view(rows@);
    let mut out: Vec<FkEntry<N>> = Vec::new();
    let n = rows.len();
    assert(rv.take(0) =~= Seq::<FkRowV>::empty());
    assert(entry_views(out@) =~= Seq::<FkEntryV<N>>::empty());
    for i in 0..n
        invariant
            n == rows@.len(),
            rv == rows_view(rows@),
            entry_views(out@) == entries_for(
                rv.take(i as int),
                op_id@,
                views(ids@),
                skills@,
                overrides@,
                table_views(table@),
                fallback@,
                dt,
            ),
    {
        assert(rv.take(i + 1).drop_last() =~= rv.take(i as int));
        assert(rv.take(i + 1).last() == rv[i as int]);
        let row = &rows[i];
        let num = row.skill_num.as_str();
        let skill_id = skill_id_for(ids, num);
        let label = skill_label(ids, skills, num);
        let d = defaults_of(table, fallback, skill_id);
        let variants = overrides.variants_for(op_id, num);
        push_row_entries(&mut out, row, label.as_str(), d, dt, variants);
    }
    assert(rv.take(n as int) =~= rv);
    out
}

/// The catalog modules of a combat operator's modules.
fn catalog_modules<N: Copy>(mods: &Vec<RawModuleCombat<N>>) -> (r: Vec<CatalogModule<N>>)
    ensures
        r@.map_values(|m: CatalogModule<N>| m@) == mods@.map_values(|m: RawModuleCombat<N>| m@).map_values(
            |m: ModuleCombatV<N>| catalog_module(m),
        ),
{
    let ghost target = mods@.map_values(|m: RawModuleCombat<N>| m@).map_values(
        |m: ModuleCombatV<N>| catalog_module(m),
    );
    let mut r: Vec<CatalogModule<N>> = Vec::new();
    let n = mods.len();
    for i in 0..n
        invariant
            n == mods@.len(),
            target == mods@.map_values(|m: RawModuleCombat<N>| m@).map_values(
                |m: ModuleCombatV<N>| catalog_module(m),
            ),
            r@.map_values(|m: CatalogModule<N>| m@) == target.take(i as int),
    {
        let m = &mods[i];
        let c = CatalogModule {
            id: m.eq_id.clone(),
            module_type: m.eq_type.clone(),
            name: m.name.clone(),
            atk_by_level: copy_values(&m.atk_by_level),
        };
        let ghost before = r@.map_values(|m: CatalogModule<N>| m@);
        assert(c@ == target[i as int]);
        let ghost cv = c@;
        r.push(c);
        assert(r@.map_values(|m: CatalogModule<N>| m@) =~= before.push(cv));
        assert(target.take(i + 1) =~= target.take(i as int).push(target[i as int]));
    }
    assert(target.take(n as int) =~= target);
    r
}

/// Builds the catalog: each operator of the frame-kill sheet, in sheet
/// order, resolved by its normalized name to a combat operator that the
/// cost data also has (else skipped), with its tags, attack, modules and
/// one entry per sheet row and corrected variant (see `catalog_spec`).
/// `table` gives each skill's defaults from its game data, `fallback` those
/// of a skill without data. The catalog has no buffs yet.
pub fn build_catalog<N: Copy, M>(
    fk: &FkSheetData,
    ops: &OperatorData<M>,
    combat: &OperatorCombat<N>,
    skills: &SkillData,
    overrides: &Overrides<N>,
    table: &Vec<(String, SkillDefaults<N>)>,
    fallback: &SkillDefaults<N>,
) -> (r: CatalogBuild<N>)
    ensures
        ({
            let out = catalog_spec(
                sheet_entries(fk.by_operator),
                normalized_ids(combat@.name_to_id),
                combat@.ops,
                ops@.ops,
                skills@,
                overrides@,
                table_views(table@),
                fallback@,
            );
            &&& r.catalog.operators@.map_values(|o: CatalogOperator<N>| o@) == out.ops
            &&& views(r.skipped@) == out.skipped
        }),
        r.catalog.buffers@.len() == 0,
{
    let ghost sheet = sheet_entries(fk.by_operator);
    let ghost cv = combat@.ops;
    let ghost xv = ops@.ops;
    let ghost tv = table_views(table@);
    // Combat operator ids by normalized name, built once.
    let pairs = combat.name_to_id.pairs();
    let mut index = StrMap::new();
    let m = pairs.len();
    let ghost pv = pairs@.map_values(|p: (String, String)| (p.0@, p.1@));
    assert(pv.take(0) =~= Seq::<(Seq<char>, Seq<char>)>::empty());
    assert(normalized_ids(pv.take(0)) =~= Seq::<(Seq<char>, Seq<char>)>::empty());
    for i in 0..m
        invariant
            m == pairs@.len(),
            pv == pairs@.map_values(|p: (String, String)| (p.0@, p.1@)),
            index@ == normalized_ids(pv.take(i as int)),
    {
        let k = normalize_operator_name(pairs[i].0.as_str());
        index.insert(k, pairs[i].1.clone());
        assert(normalized_ids(pv.take(i + 1)) =~= normalized_ids(pv.take(i as int)).push(
            (normalized_name(pv[i as int].0), pv[i as int].1),
        ));
    }
    assert(pv.take(m as int) =~= pv);
    let ghost iv = index@;
    let names = sheet_names(&fk.by_operator);
    let ghost nv = views(names@);
    let mut operators: Vec<CatalogOperator<N>> = Vec::new();
    let mut skipped: Vec<String> = Vec::new();
    let n = names.len();
    assert(nv.len() == n);
    assert(sheet.len() == n);
    assert(sheet.take(0) =~= Seq::<(Seq<char>, Seq<FkRowV>)>::empty());
    assert(operators@.map_values(|o: CatalogOperator<N>| o@) =~= Seq::<CatalogOperatorV<N>>::empty());
    assert(views(skipped@) =~= Seq::<Seq<char>>::empty());
    for i in 0..n
        invariant
            n == names@.len(),
            nv == views(names@),
            nv == sheet.map_values(|e: (Seq<char>, Seq<FkRowV>)| e.0),
            nv.no_duplicates(),
            sheet.len() == n,
            sheet == sheet_entries(fk.by_operator),
            iv == index@,
            iv == normalized_ids(combat@.name_to_id),
            cv == combat@.ops,
            xv == ops@.ops,
            tv == table_views(table@),
            operators@.map_values(|o: CatalogOperator<N>| o@) == catalog_spec(
                sheet.take(i as int),
                iv,
                cv,
                xv,
                skills@,
                overrides@,
                tv,
                fallback@,
            ).ops,
            views(skipped@) == catalog_spec(
                sheet.take(i as int),
                iv,
                cv,
                xv,
                skills@,
                overrides@,
                tv,
                fallback@,
            ).skipped,
    {
        let ghost e = sheet[i as int];
        assert(sheet.take(i + 1).drop_last() =~= sheet.take(i as int));
        assert(sheet.take(i + 1).last() == e);
        assert(nv[i as int] == e.0);
        proof {
            lemma_first_key_distinct(sheet, i as int);
        }
        let ghost st = catalog_spec(sheet.take(i as int), iv, cv, xv, skills@, overrides@, tv, fallback@);
        let ghost want = catalog_entry(e.0, e.1, iv, cv, xv, skills@, overrides@, tv, fallback@);
        let name = &names[i];
        let norm = normalize_operator_name(name.as_str());
        let mut resolved = false;
        match index.get(norm.as_str()) {
            None => {},
            Some(op_id) => match combat.get(op_id.as_str()) {
                None => {},
                Some(combat_op) => match ops.get(op_id.as_str()) {
                    None => {},
                    Some(cost_op) => match sheet_rows_of(&fk.by_operator, name.as_str()) {
                        None => {},
                        Some(rows) => {
                            let ids = skill_id_list(&cost_op.skills);
                            let tags = tags_for(
                                combat_op.profession.as_str(),
                                combat_op.position.as_str(),
                                combat_op.nation_id.as_str(),
                            );
                            let dt = guess_damage_type(combat_op.profession.as_str());
                            let fk_entries = operator_entries(
                                rows,
                                op_id.as_str(),
                                &ids,
                                skills,
                                overrides,
                                table,
                                fallback,
                                dt,
                            );
                            let op = CatalogOperator {
                                id: op_id.clone(),
                                name: name.clone(),
                                tags,
                                atk_base: combat_op.atk_base,
                                atk_potential: combat_op.atk_potential,
                                modules: catalog_modules(&combat_op.modules),
                                fk_entries,
                            };
                            assert(want == Some(op@));
                            let ghost before = operators@.map_values(|o: CatalogOperator<N>| o@);
                            operators.push(op);
                            assert(operators@.map_values(|o: CatalogOperator<N>| o@) =~= before.push(
                                want->0,
                            ));
                            resolved = true;
                        },
                    },
                },
            },
        }
        if !resolved {
            assert(want is None);
            let ghost before = views(skipped@);
            skipped.push(name.clone());
            assert(views(skipped@) =~= before.push(e.0));
        }
    }
    assert(sheet.take(n as int) =~= sheet);
    CatalogBuild { catalog: Catalog { operators, buffers: Vec::new() }, skipped }
}

// ---------------------------------------------------------------------------
// Laws
// ---------------------------------------------------------------------------

/// Every operator of the sheet is either in the catalog or skipped, and
/// the skipped names are sheet names.
pub proof fn lemma_catalog_partition<N, M>(
    sheet: Seq<(Seq<char>, Seq<FkRowV>)>,
    index: Seq<(Seq<char>, Seq<char>)>,
    combat: Seq<CombatOpV<N>>,
    cost: Seq<CostOpV<M>>,
    sd: Seq<(Seq<char>, (Seq<char>, Seq<char>))>,
    ov: Seq<(Seq<char>, Seq<(Seq<char>, Seq<OverrideVariantV<N>>)>)>,
    table: Seq<(Seq<char>, SkillDefaultsV<N>)>,
    fallback: SkillDefaultsV<N>,
)
    ensures
        ({
            let st = catalog_spec(sheet, index, combat, cost, sd, ov, table, fallback);
            &&& st.ops.len() + st.skipped.len() == sheet.len()
            &&& forall|k: int| 0 <= k < st.skipped.len() ==> exists|j: int| 0 <= j < sheet.len() && sheet[j].0
                == #[trigger] st.skipped[k]
        }),
    decreases sheet.len(),
{
    if sheet.len() > 0 {
        let d = sheet.drop_last();
        lemma_catalog_partition(d, index, combat, cost, sd, ov, table, fallback);
        let st = catalog_spec(sheet, index, combat, cost, sd, ov, table, fallback);
        let sd0 = catalog_spec(d, index, combat, cost, sd, ov, table, fallback);
        assert forall|k: int| 0 <= k < st.skipped.len() implies exists|j: int| 0 <= j < sheet.len()
            && sheet[j].0 == #[trigger] st.skipped[k] by {
            if k < sd0.skipped.len() {
                assert(st.skipped[k] == sd0.skipped[k]);
                let j = choose|j: int| 0 <= j < d.len() && d[j].0 == sd0.skipped[k];
                assert(sheet[j] == d[j]);
            } else {
                assert(sheet[sheet.len() - 1].0 == st.skipped[k]);
            }
        }
    }
}

/// `combat_index` finds a combat operator of the id asked for.
proof fn lemma_combat_index_found<N>(combat: Seq<CombatOpV<N>>, id: Seq<char>)
    ensures
        match combat_index(combat, id) {
            Some(c) => 0 <= c < combat.len() && combat[c].id == id,
            None => true,
        },
    decreases combat.len(),
{
    if combat.len() > 0 {
        lemma_combat_index_found(combat.drop_first(), id);
    }
}

/// Each catalog operator is a combat operator of the same id and takes its
/// base attack and its potential attack bonus from that operator, each to
/// its own field.
pub proof fn lemma_catalog_attack_from_combat<N, M>(
    sheet: Seq<(Seq<char>, Seq<FkRowV>)>,
    index: Seq<(Seq<char>, Seq<char>)>,
    combat: Seq<CombatOpV<N>>,
    cost: Seq<CostOpV<M>>,
    sd: Seq<(Seq<char>, (Seq<char>, Seq<char>))>,
    ov: Seq<(Seq<char>, Seq<(Seq<char>, Seq<OverrideVariantV<N>>)>)>,
    table: Seq<(Seq<char>, SkillDefaultsV<N>)>,
    fallback: SkillDefaultsV<N>,
)
    ensures
        ({
            let st = catalog_spec(sheet, index, combat, cost, sd, ov, table, fallback);
            forall|i: int| 0 <= i < st.ops.len() ==> exists|c: int| 0 <= c < combat.len() && combat[c].id
                == (#[trigger] st.ops[i]).id && st.ops[i].atk_base == combat[c].atk_base
                && st.ops[i].atk_potential == combat[c].atk_potential
        }),
    decreases sheet.len(),
{
    if sheet.len() > 0 {
        let d = sheet.drop_last();
        lemma_catalog_attack_from_combat(d, index, combat, cost, sd, ov, table, fallback);
        let st = catalog_spec(sheet, index, combat, cost, sd, ov, table, fallback);
        let s0 = catalog_spec(d, index, combat, cost, sd, ov, table, fallback);
        let e = sheet.last();
        match lookup(index, normalized_name(e.0)) {
            Some(op_id) => lemma_combat_index_found(combat, op_id),
            None => {},
        }
        assert forall|i: int| 0 <= i < st.ops.len() implies exists|c: int| 0 <= c < combat.len()
            && combat[c].id == (#[trigger] st.ops[i]).id && st.ops[i].atk_base == combat[c].atk_base
            && st.ops[i].atk_potential == combat[c].atk_potential by {
            if i < s0.ops.len() {
                assert(st.ops[i] == s0.ops[i]);
            } else {
                let op_id = lookup(index, normalized_name(e.0))->0;
                let c = combat_index(combat, op_id)->0;
                assert(combat[c].id == st.ops[i].id);
            }
        }
    }
}

/// A corrected field is manual and takes the corrected value; a field the
/// correction leaves out is automatic and keeps the game data's value.
pub proof fn lemma_override_fields<N>(
    row: FkRowV,
    label: Seq<char>,
    d: SkillDefaultsV<N>,
    dt: DamageType,
    v: OverrideVariantV<N>,
)
    ensures
        ({
            let e = variant_entry(row, label, d, dt, v);
            &&& (v.multiplier matches Some(m) ==> e.multiplier == Valued { value: m, source: ValueSource::Manual })
            &&& (v.multiplier is None ==> e.multiplier == Valued { value: d.multiplier, source: ValueSource::Auto })
            &&& (v.hits matches Some(h) ==> e.hits == Valued { value: h, source: ValueSource::Manual })
            &&& (v.hits is None ==> e.hits == Valued { value: 1u32, source: ValueSource::Auto })
            &&& (v.damage_type is None ==> e.damage_type == Valued { value: dt, source: ValueSource::Auto })
        }),
{
}

} // verus!
