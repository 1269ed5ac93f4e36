//! The stages of one server as the value calculation sees them: which are
//! main and which are event stages, the drop records counted for each, how
//! often each was tried, and which stages each category has. What a stage
//! carries besides (its costs and times) is of the caller's type `P`, the
//! drop quantities of the caller's number type `N`; both are carried, never
//! read.
use vstd::prelude::*;
use crate::outer_source::ark_stages::RawDropInfo;
use crate::outer_source::item_names::{ItemNames, ItemNamesV};
use crate::outer_source::names::{lookup, StrMap};
use crate::outer_source::zones::Zones;
use crate::text::{str_eq, to_owned, views};
use super::server::{for_server, stage_category_dict, value_target, value_target_base, value_target_new, Server, StageCategoryFile};
use super::stage_info::{
    category_stage_ids, classify_stage, name_with_replicate, stage_code, stage_ids_of, stage_kind,
    str_list_contains, CategoryInstance, StageKind,
};
use super::table::{InfoV, StageCategoryInfo};

verus! {

// ---------------------------------------------------------------------------
// Data
// ---------------------------------------------------------------------------

/// One stage of the drop statistics.
#[derive(Debug)]
pub struct StageRow<P> {
    pub stage_id: String,
    pub code: String,
    pub zone_id: String,
    pub stage_type: String,
    pub drop_infos: Vec<RawDropInfo>,
    /// What else the stage carries (its costs and times).
    pub payload: P,
}

/// One drop record of the statistics: an item of a stage, how often the
/// stage was tried and how many of the item dropped.
#[derive(Debug)]
pub struct DropRecord<N> {
    pub stage_id: String,
    pub item_id: String,
    pub times: i64,
    pub quantity: N,
    /// Whether the record is for a limited period (it has an end).
    pub has_end: bool,
}

/// A stage with the drops counted for it.
#[derive(Debug)]
pub struct StageEntry<P, N> {
    pub stage_id: String,
    pub code: String,
    pub zone_id: String,
    pub zone_name: String,
    /// The items of its normal drops.
    pub main_drop_ids: Vec<String>,
    pub payload: P,
    /// Item, quantity and tries of each counted record; a later record of
    /// an item replaces the earlier one in its place.
    pub drops: Vec<(String, N, i64)>,
    /// The most tries of a counted record, 0 when there is none.
    pub max_times: i64,
}

/// A stage as the specifications see it.
pub struct StageEntryV<P, N> {
    pub stage_id: Seq<char>,
    pub code: Seq<char>,
    pub zone_id: Seq<char>,
    pub zone_name: Seq<char>,
    pub main_drop_ids: Seq<Seq<char>>,
    pub payload: P,
    pub drops: Seq<(Seq<char>, N, i64)>,
    pub max_times: i64,
}

/// Drops as the specifications see them.
pub open spec fn drop_views<N>(d: Seq<(String, N, i64)>) -> Seq<(Seq<char>, N, i64)> {
    d.map_values(|x: (String, N, i64)| (x.0@, x.1, x.2))
}

impl<P, N> View for StageEntry<P, N> {
    type V = StageEntryV<P, N>;

    open spec fn view(&self) -> StageEntryV<P, N> {
        StageEntryV {
            stage_id: self.stage_id@,
            code: self.code@,
            zone_id: self.zone_id@,
            zone_name: self.zone_name@,
            main_drop_ids: views(self.main_drop_ids@),
            payload: self.payload,
            drops: drop_views(self.drops@),
            max_times: self.max_times,
        }
    }
}

/// Stages as the specifications see them.
pub open spec fn entry_views<P, N>(s: Seq<StageEntry<P, N>>) -> Seq<StageEntryV<P, N>> {
    s.map_values(|e: StageEntry<P, N>| e@)
}

/// The stage tables of one server.
pub struct StageTables<P, N> {
    /// Main-story, side-story and permanent stages, in statistics order; no
    /// id occurs twice.
    pub main: Vec<StageEntry<P, N>>,
    /// Running event stages, likewise.
    pub event: Vec<StageEntry<P, N>>,
    /// The stage id of each main stage's code (with its rerun mark); a
    /// later stage of the same code wins.
    pub main_code_to_id: StrMap,
    /// The event stages' codes likewise.
    pub event_code_to_id: StrMap,
    /// Each category with the ids of its known main stages, by name.
    pub categories: Vec<(String, CategoryInstance)>,
}

// ---------------------------------------------------------------------------
// Specification
// ---------------------------------------------------------------------------

/// The first position of a stage with id `id`.
pub open spec fn entry_index<P, N>(s: Seq<StageEntryV<P, N>>, id: Seq<char>) -> Option<int>
    decreases s.len(),
{
    if s.len() == 0 {
        None
    } else if s[0].stage_id == id {
        Some(0)
    } else {
        match entry_index(s.drop_first(), id) {
            Some(i) => Some(i + 1),
            None => None,
        }
    }
}

/// `e` stored under its id: in place of the stage with that id, else last.
pub open spec fn entry_upsert<P, N>(s: Seq<StageEntryV<P, N>>, e: StageEntryV<P, N>) -> Seq<StageEntryV<P, N>> {
    match entry_index(s, e.stage_id) {
        Some(i) => s.update(i, e),
        None => s.push(e),
    }
}

/// The items of the normal drops, in order.
pub open spec fn normal_drops(d: Seq<RawDropInfo>) -> Seq<Seq<char>>
    decreases d.len(),
{
    if d.len() == 0 {
        seq![]
    } else {
        let p = normal_drops(d.drop_last());
        let x = d.last();
        if x.drop_type@ == "NORMAL_DROP"@ && x.item_id is Some {
            p.push(x.item_id->0@)
        } else {
            p
        }
    }
}

/// The name of a zone, or "Missing".
pub open spec fn zone_name_of(zones: Seq<(Seq<char>, Seq<char>)>, id: Seq<char>) -> Seq<char> {
    match lookup(zones, id) {
        Some(n) => n,
        None => "Missing"@,
    }
}

/// A stage before any record is counted.
pub open spec fn new_entry<P, N>(row: StageRow<P>, zones: Seq<(Seq<char>, Seq<char>)>) -> StageEntryV<P, N> {
    StageEntryV {
        stage_id: row.stage_id@,
        code: row.code@,
        zone_id: row.zone_id@,
        zone_name: zone_name_of(zones, row.zone_id@),
        main_drop_ids: normal_drops(row.drop_infos@),
        payload: row.payload,
        drops: seq![],
        max_times: 0,
    }
}

/// The main and event stages after the stage rows, in order (see
/// `stage_kind`).
pub open spec fn sorted_stages<P, N>(
    server: Server,
    rows: Seq<StageRow<P>>,
    zones: Seq<(Seq<char>, Seq<char>)>,
) -> (Seq<StageEntryV<P, N>>, Seq<StageEntryV<P, N>>)
    decreases rows.len(),
{
    if rows.len() == 0 {
        (seq![], seq![])
    } else {
        let (m, e) = sorted_stages::<P, N>(server, rows.drop_last(), zones);
        let r = rows.last();
        match stage_kind(server, r.stage_type@, r.zone_id@, r.stage_id@) {
            StageKind::Main => (entry_upsert(m, new_entry(r, zones)), e),
            StageKind::Event => (m, entry_upsert(e, new_entry(r, zones))),
            StageKind::Ignored => (m, e),
        }
    }
}

/// The mainland name of an item, or "Missing".
pub open spec fn item_zh(n: ItemNamesV, id: Seq<char>) -> Seq<char> {
    match lookup(n.id_to_zh, id) {
        Some(z) => z,
        None => "Missing"@,
    }
}

/// Whether records of an item count: its mainland name is one of the items
/// valued for the server.
pub open spec fn counted(n: ItemNamesV, server: Server, item_id: Seq<char>) -> bool {
    for_server(value_target_base(), value_target_new(), server).contains(item_zh(n, item_id))
}

/// The first position of a drop of item `id`.
pub open spec fn drop_index<N>(d: Seq<(Seq<char>, N, i64)>, id: Seq<char>) -> Option<int>
    decreases d.len(),
{
    if d.len() == 0 {
        None
    } else if d[0].0 == id {
        Some(0)
    } else {
        match drop_index(d.drop_first(), id) {
            Some(i) => Some(i + 1),
            None => None,
        }
    }
}

/// A stage with one more counted record.
pub open spec fn with_record<P, N>(e: StageEntryV<P, N>, r: DropRecord<N>) -> StageEntryV<P, N> {
    let x = (r.item_id@, r.quantity, r.times);
    StageEntryV {
        drops: match drop_index(e.drops, r.item_id@) {
            Some(i) => e.drops.update(i, x),
            None => e.drops.push(x),
        },
        max_times: if r.times > e.max_times {
            r.times
        } else {
            e.max_times
        },
        ..e
    }
}

/// The stages after the drop records, in order: a record of a main stage
/// counts when it has no end, a record of an event stage always, and only
/// for counted items.
pub open spec fn with_records<P, N>(
    main: Seq<StageEntryV<P, N>>,
    event: Seq<StageEntryV<P, N>>,
    records: Seq<DropRecord<N>>,
    n: ItemNamesV,
    server: Server,
) -> (Seq<StageEntryV<P, N>>, Seq<StageEntryV<P, N>>)
    decreases records.len(),
{
    if records.len() == 0 {
        (main, event)
    } else {
        let (m, e) = with_records(main, event, records.drop_last(), n, server);
        let r = records.last();
        match entry_index(m, r.stage_id@) {
            Some(i) => if !r.has_end && counted(n, server, r.item_id@) {
                (m.update(i, with_record(m[i], r)), e)
            } else {
                (m, e)
            },
            None => match entry_index(e, r.stage_id@) {
                Some(j) => if counted(n, server, r.item_id@) {
                    (m, e.update(j, with_record(e[j], r)))
                } else {
                    (m, e)
                },
                None => (m, e),
            },
        }
    }
}

/// The code (with its rerun mark) and id of each stage, in order.
pub open spec fn code_ids<P, N>(s: Seq<StageEntryV<P, N>>) -> Seq<(Seq<char>, Seq<char>)> {
    s.map_values(|e: StageEntryV<P, N>| (stage_code(e.code, e.zone_id), e.stage_id))
}

/// Each category of the server with the ids of its known main stages.
pub open spec fn category_ids(
    cats: Seq<(Seq<char>, InfoV)>,
    code_to_id: Seq<(Seq<char>, Seq<char>)>,
) -> Seq<(Seq<char>, InfoV, Seq<Seq<char>>)> {
    cats.map_values(|c: (Seq<char>, InfoV)| (c.0, c.1, stage_ids_of(c.1.0, code_to_id)))
}

/// The stage tables as the specifications see them.
pub struct StageTablesV<P, N> {
    pub main: Seq<StageEntryV<P, N>>,
    pub event: Seq<StageEntryV<P, N>>,
    pub main_code_to_id: Seq<(Seq<char>, Seq<char>)>,
    pub event_code_to_id: Seq<(Seq<char>, Seq<char>)>,
    pub categories: Seq<(Seq<char>, InfoV, Seq<Seq<char>>)>,
}

/// The stage tables of a server: the stages sorted into main and event
/// stages, the drop records counted, the code maps, and the categories.
pub open spec fn stage_tables_spec<P, N>(
    server: Server,
    rows: Seq<StageRow<P>>,
    records: Seq<DropRecord<N>>,
    cats: Seq<(Seq<char>, InfoV)>,
    n: ItemNamesV,
    zones: Seq<(Seq<char>, Seq<char>)>,
) -> StageTablesV<P, N> {
    let (m0, e0) = sorted_stages::<P, N>(server, rows, zones);
    let (m, e) = with_records(m0, e0, records, n, server);
    StageTablesV {
        main: m,
        event: e,
        main_code_to_id: code_ids(m),
        event_code_to_id: code_ids(e),
        categories: category_ids(cats, code_ids(m)),
    }
}

impl<P, N> View for StageTables<P, N> {
    type V = StageTablesV<P, N>;

    open spec fn view(&self) -> StageTablesV<P, N> {
        StageTablesV {
            main: entry_views(self.main@),
            event: entry_views(self.event@),
            main_code_to_id: self.main_code_to_id@,
            event_code_to_id: self.event_code_to_id@,
            categories: self.categories@.map_values(
                |c: (String, CategoryInstance)| (c.0@, c.1.info@, views(c.1.stage_ids@)),
            ),
        }
    }
}

// ---------------------------------------------------------------------------
// Proofs
// ---------------------------------------------------------------------------

/// `entry_index` finds the first stage with the id, and nothing when there
/// is none.
proof fn lemma_entry_index<P, N>(s: Seq<StageEntryV<P, N>>, id: Seq<char>)
    ensures
        match entry_index(s, id) {
            Some(i) => 0 <= i < s.len() && s[i].stage_id == id && forall|q: int| 0 <= q < i ==> s[q].stage_id
                != id,
            None => forall|q: int| 0 <= q < s.len() ==> s[q].stage_id != id,
        },
    decreases s.len(),
{
    if s.len() > 0 {
        lemma_entry_index(s.drop_first(), id);
        assert forall|q: int| 1 <= q < s.len() implies s[q] == s.drop_first()[q - 1] by {}
    }
}

/// `drop_index` finds the first drop of the item.
proof fn lemma_drop_index<N>(d: Seq<(Seq<char>, N, i64)>, id: Seq<char>)
    ensures
        match drop_index(d, id) {
            Some(i) => 0 <= i < d.len() && d[i].0 == id && forall|q: int| 0 <= q < i ==> d[q].0 != id,
            None => forall|q: int| 0 <= q < d.len() ==> d[q].0 != id,
        },
    decreases d.len(),
{
    if d.len() > 0 {
        lemma_drop_index(d.drop_first(), id);
        assert forall|q: int| 1 <= q < d.len() implies d[q] == d.drop_first()[q - 1] by {}
    }
}

/// The records counted for main stage `id`: those of it that have no end
/// and whose item is valued.
pub open spec fn main_keep<N>(id: Seq<char>, n: ItemNamesV, server: Server) -> spec_fn(DropRecord<N>) -> bool {
    |r: DropRecord<N>| r.stage_id@ == id && !r.has_end && counted(n, server, r.item_id@)
}

/// The records counted for event stage `id`: those of it whose item is
/// valued.
pub open spec fn event_keep<N>(id: Seq<char>, n: ItemNamesV, server: Server) -> spec_fn(DropRecord<N>) -> bool {
    |r: DropRecord<N>| r.stage_id@ == id && counted(n, server, r.item_id@)
}

/// `t` is the most tries of a record that `keep` admits, 0 when none does.
pub open spec fn is_max_tries<N>(t: i64, records: Seq<DropRecord<N>>, keep: spec_fn(DropRecord<N>) -> bool) -> bool {
    &&& t >= 0
    &&& forall|k: int| 0 <= k < records.len() && #[trigger] keep(records[k]) ==> records[k].times <= t
    &&& t == 0 || exists|k: int| 0 <= k < records.len() && #[trigger] keep(records[k]) && records[k].times == t
}

/// Two stage lists with the same ids in the same places find an id in the
/// same place.
proof fn lemma_entry_index_same_ids<P, N>(a: Seq<StageEntryV<P, N>>, b: Seq<StageEntryV<P, N>>, id: Seq<char>)
    requires
        a.len() == b.len(),
        forall|i: int| 0 <= i < a.len() ==> a[i].stage_id == b[i].stage_id,
    ensures
        entry_index(a, id) == entry_index(b, id),
    decreases a.len(),
{
    if a.len() > 0 {
        assert(a[0].stage_id == b[0].stage_id);
        lemma_entry_index_same_ids(a.drop_first(), b.drop_first(), id);
    }
}

/// The stages that `sorted_stages` gives have no drop counted yet.
proof fn lemma_sorted_fresh<P, N>(server: Server, rows: Seq<StageRow<P>>, zones: Seq<(Seq<char>, Seq<char>)>)
    ensures
        ({
            let (m, e) = sorted_stages::<P, N>(server, rows, zones);
            (forall|i: int| 0 <= i < m.len() ==> m[i].max_times == 0) && (forall|i: int|
                0 <= i < e.len() ==> e[i].max_times == 0)
        }),
    decreases rows.len(),
{
    if rows.len() > 0 {
        lemma_sorted_fresh::<P, N>(server, rows.drop_last(), zones);
        let (m, e) = sorted_stages::<P, N>(server, rows.drop_last(), zones);
        let x = new_entry::<P, N>(rows.last(), zones);
        lemma_entry_index(m, x.stage_id);
        lemma_entry_index(e, x.stage_id);
    }
}

/// Counting the records keeps the ids in their places.
proof fn lemma_ids_kept<P, N>(
    main: Seq<StageEntryV<P, N>>,
    event: Seq<StageEntryV<P, N>>,
    records: Seq<DropRecord<N>>,
    n: ItemNamesV,
    server: Server,
)
    ensures
        ({
            let (m, e) = with_records(main, event, records, n, server);
            &&& m.len() == main.len()
            &&& e.len() == event.len()
            &&& forall|i: int| 0 <= i < m.len() ==> m[i].stage_id == main[i].stage_id
            &&& forall|i: int| 0 <= i < e.len() ==> e[i].stage_id == event[i].stage_id
        }),
    decreases records.len(),
{
    if records.len() > 0 {
        lemma_ids_kept(main, event, records.drop_last(), n, server);
        let (m, e) = with_records(main, event, records.drop_last(), n, server);
        lemma_entry_index(m, records.last().stage_id@);
        lemma_entry_index(e, records.last().stage_id@);
    }
}

/// The tries of the first stage of each id, after counting the records,
/// are the most tries of a record counted for it.
proof fn lemma_with_records_max<P, N>(
    main: Seq<StageEntryV<P, N>>,
    event: Seq<StageEntryV<P, N>>,
    records: Seq<DropRecord<N>>,
    n: ItemNamesV,
    server: Server,
)
    requires
        forall|i: int| 0 <= i < main.len() ==> main[i].max_times == 0,
        forall|i: int| 0 <= i < event.len() ==> event[i].max_times == 0,
    ensures
        ({
            let (m, e) = with_records(main, event, records, n, server);
            &&& forall|id: Seq<char>| #[trigger] entry_index(main, id) is Some ==> is_max_tries(
                m[entry_index(main, id)->0].max_times,
                records,
                main_keep::<N>(id, n, server),
            )
            &&& forall|id: Seq<char>| entry_index(main, id) is None && #[trigger] entry_index(event, id) is Some ==> is_max_tries(
                e[entry_index(event, id)->0].max_times,
                records,
                event_keep::<N>(id, n, server),
            )
        }),
    decreases records.len(),
{
    let (m, e) = with_records(main, event, records, n, server);
    if records.len() == 0 {
        assert forall|id: Seq<char>| #[trigger] entry_index(main, id) is Some implies is_max_tries(
            m[entry_index(main, id)->0].max_times,
            records,
            main_keep::<N>(id, n, server),
        ) by {
            lemma_entry_index(main, id);
        }
        assert forall|id: Seq<char>| entry_index(main, id) is None && #[trigger] entry_index(event, id) is Some implies is_max_tries(
            e[entry_index(event, id)->0].max_times,
            records,
            event_keep::<N>(id, n, server),
        ) by {
            lemma_entry_index(event, id);
        }
    } else {
        let pre = records.drop_last();
        let r = records.last();
        let last = records.len() - 1;
        lemma_with_records_max(main, event, pre, n, server);
        lemma_ids_kept(main, event, pre, n, server);
        let (mp, ep) = with_records(main, event, pre, n, server);
        assert forall|k: int| 0 <= k < pre.len() implies records[k] == pre[k] by {}
        lemma_entry_index_same_ids(mp, main, r.stage_id@);
        lemma_entry_index_same_ids(ep, event, r.stage_id@);
        lemma_entry_index(main, r.stage_id@);
        lemma_entry_index(event, r.stage_id@);
        assert forall|id: Seq<char>| #[trigger] entry_index(main, id) is Some implies is_max_tries(
            m[entry_index(main, id)->0].max_times,
            records,
            main_keep::<N>(id, n, server),
        ) by {
            let keep = main_keep::<N>(id, n, server);
            lemma_entry_index(main, id);
            let i = entry_index(main, id)->0;
            assert(is_max_tries(mp[i].max_times, pre, keep));
            if keep(r) {
                assert(m[i].max_times == if r.times > mp[i].max_times { r.times } else { mp[i].max_times });
                if r.times <= mp[i].max_times && mp[i].max_times != 0 {
                    let k = choose|k: int| 0 <= k < pre.len() && #[trigger] keep(pre[k]) && pre[k].times == mp[i].max_times;
                    assert(records[k] == pre[k]);
                }
                assert(records[last] == r);
            } else {
                assert(m[i].max_times == mp[i].max_times);
                if mp[i].max_times != 0 {
                    let k = choose|k: int| 0 <= k < pre.len() && #[trigger] keep(pre[k]) && pre[k].times == mp[i].max_times;
                    assert(records[k] == pre[k]);
                }
            }
        }
        assert forall|id: Seq<char>| entry_index(main, id) is None && #[trigger] entry_index(event, id) is Some implies is_max_tries(
            e[entry_index(event, id)->0].max_times,
            records,
            event_keep::<N>(id, n, server),
        ) by {
            let keep = event_keep::<N>(id, n, server);
            lemma_entry_index(event, id);
            let j = entry_index(event, id)->0;
            assert(is_max_tries(ep[j].max_times, pre, keep));
            if keep(r) {
                assert(e[j].max_times == if r.times > ep[j].max_times { r.times } else { ep[j].max_times });
                if r.times <= ep[j].max_times && ep[j].max_times != 0 {
                    let k = choose|k: int| 0 <= k < pre.len() && #[trigger] keep(pre[k]) && pre[k].times == ep[j].max_times;
                    assert(records[k] == pre[k]);
                }
                assert(records[last] == r);
            } else {
                assert(e[j].max_times == ep[j].max_times);
                if ep[j].max_times != 0 {
                    let k = choose|k: int| 0 <= k < pre.len() && #[trigger] keep(pre[k]) && pre[k].times == ep[j].max_times;
                    assert(records[k] == pre[k]);
                }
            }
        }
    }
}

/// The tries of a main stage are the most tries of a record of it that has
/// no end and whose item is valued, and those of an event stage the most
/// tries of a record of it whose item is valued; 0 when there is none.
pub proof fn lemma_max_times<P, N>(
    server: Server,
    rows: Seq<StageRow<P>>,
    records: Seq<DropRecord<N>>,
    n: ItemNamesV,
    zones: Seq<(Seq<char>, Seq<char>)>,
    id: Seq<char>,
)
    ensures
        ({
            let (m0, e0) = sorted_stages::<P, N>(server, rows, zones);
            let (m, e) = with_records(m0, e0, records, n, server);
            &&& entry_index(m, id) is Some ==> is_max_tries(
                m[entry_index(m, id)->0].max_times,
                records,
                main_keep::<N>(id, n, server),
            )
            &&& entry_index(m, id) is None && entry_index(e, id) is Some ==> is_max_tries(
                e[entry_index(e, id)->0].max_times,
                records,
                event_keep::<N>(id, n, server),
            )
        }),
{
    let (m0, e0) = sorted_stages::<P, N>(server, rows, zones);
    lemma_sorted_fresh::<P, N>(server, rows, zones);
    lemma_with_records_max(m0, e0, records, n, server);
    lemma_ids_kept(m0, e0, records, n, server);
    let (m, e) = with_records(m0, e0, records, n, server);
    lemma_entry_index_same_ids(m, m0, id);
    lemma_entry_index_same_ids(e, e0, id);
}

/// No two stages share an id.
pub open spec fn ids_distinct<P, N>(s: Seq<StageEntryV<P, N>>) -> bool {
    forall|i: int, j: int| 0 <= i < j < s.len() ==> s[i].stage_id != s[j].stage_id
}

/// Storing a stage under its id keeps the ids distinct.
proof fn lemma_upsert_distinct<P, N>(s: Seq<StageEntryV<P, N>>, e: StageEntryV<P, N>)
    requires
        ids_distinct(s),
    ensures
        ids_distinct(entry_upsert(s, e)),
{
    lemma_entry_index(s, e.stage_id);
    let t = entry_upsert(s, e);
    assert forall|i: int, j: int| 0 <= i < j < t.len() implies t[i].stage_id != t[j].stage_id by {
        match entry_index(s, e.stage_id) {
            Some(k) => {
                if i != k && j != k {
                    assert(t[i] == s[i] && t[j] == s[j]);
                }
            },
            None => {},
        }
    }
}

/// The main and event stages of the tables each name every id once.
pub proof fn lemma_stage_ids_distinct<P, N>(
    server: Server,
    rows: Seq<StageRow<P>>,
    records: Seq<DropRecord<N>>,
    n: ItemNamesV,
    zones: Seq<(Seq<char>, Seq<char>)>,
)
    ensures
        ({
            let (m0, e0) = sorted_stages::<P, N>(server, rows, zones);
            let (m, e) = with_records(m0, e0, records, n, server);
            ids_distinct(m) && ids_distinct(e)
        }),
{
    let (m0, e0) = sorted_stages::<P, N>(server, rows, zones);
    lemma_sorted_distinct::<P, N>(server, rows, zones);
    lemma_ids_kept(m0, e0, records, n, server);
}

/// Sorting the stage rows gives no id twice.
proof fn lemma_sorted_distinct<P, N>(server: Server, rows: Seq<StageRow<P>>, zones: Seq<(Seq<char>, Seq<char>)>)
    ensures
        ids_distinct(sorted_stages::<P, N>(server, rows, zones).0),
        ids_distinct(sorted_stages::<P, N>(server, rows, zones).1),
    decreases rows.len(),
{
    if rows.len() > 0 {
        lemma_sorted_distinct::<P, N>(server, rows.drop_last(), zones);
        let (m, e) = sorted_stages::<P, N>(server, rows.drop_last(), zones);
        let x = new_entry::<P, N>(rows.last(), zones);
        lemma_upsert_distinct(m, x);
        lemma_upsert_distinct(e, x);
    }
}

/// A record that has an end changes nothing when it is of a main stage.
pub proof fn lemma_end_record_ignored<P, N>(
    main: Seq<StageEntryV<P, N>>,
    event: Seq<StageEntryV<P, N>>,
    records: Seq<DropRecord<N>>,
    r: DropRecord<N>,
    n: ItemNamesV,
    server: Server,
)
    requires
        r.has_end,
        entry_index(main, r.stage_id@) is Some,
    ensures
        with_records(main, event, records.push(r), n, server) == with_records(main, event, records, n, server),
{
    assert(records.push(r).drop_last() =~= records);
    assert(records.push(r).last() == r);
    lemma_ids_kept(main, event, records, n, server);
    let (m, e) = with_records(main, event, records, n, server);
    lemma_entry_index_same_ids(m, main, r.stage_id@);
}

// ---------------------------------------------------------------------------
// Implementation
// ---------------------------------------------------------------------------

/// The first position of a stage with id `id`.
fn find_entry<P, N>(s: &Vec<StageEntry<P, N>>, id: &str) -> (r: Option<usize>)
    ensures
        r matches Some(j) ==> j < s@.len() && entry_index(entry_views(s@), id@) == Some(j as int),
        r is None ==> entry_index(entry_views(s@), id@) is None,
{
    let ghost v = entry_views(s@);
    let n = s.len();
    for j in 0..n
        invariant
            n == s@.len(),
            v == entry_views(s@),
            forall|q: int| 0 <= q < j ==> v[q].stage_id != id@,
    {
        if str_eq(s[j].stage_id.as_str(), id) {
            proof {
                lemma_entry_index(v, id@);
            }
            assert(v[j as int].stage_id == id@);
            return Some(j);
        }
    }
    proof {
        lemma_entry_index(v, id@);
    }
    None
}

/// Stores `e` under its id (see `entry_upsert`).
fn upsert_entry<P, N>(s: &mut Vec<StageEntry<P, N>>, e: StageEntry<P, N>)
    ensures
        entry_views(final(s)@) == entry_upsert(entry_views(old(s)@), e@),
{
    let ghost before = entry_views(s@);
    let ghost v = e@;
    match find_entry(s, e.stage_id.as_str()) {
        Some(j) => {
            s[j] = e;
            assert(entry_views(s@) =~= before.update(j as int, v));
        },
        None => {
            s.push(e);
            assert(entry_views(s@) =~= before.push(v));
        },
    }
}

/// The items of the normal drops (see `normal_drops`).
fn normal_drop_ids(d: &Vec<RawDropInfo>) -> (r: Vec<String>)
    ensures
        views(r@) == normal_drops(d@),
{
    proof {
        reveal_strlit("NORMAL_DROP");
    }
    let mut out: Vec<String> = Vec::new();
    let n = d.len();
    assert(d@.take(0) =~= Seq::<RawDropInfo>::empty());
    for i in 0..n
        invariant
            n == d@.len(),
            views(out@) == normal_drops(d@.take(i as int)),
    {
        assert(d@.take(i + 1).drop_last() =~= d@.take(i as int));
        assert(d@.take(i + 1).last() == d@[i as int]);
        let x = &d[i];
        if str_eq(x.drop_type.as_str(), "NORMAL_DROP") {
            match &x.item_id {
                Some(id) => {
                    let ghost before = views(out@);
                    out.push(id.clone());
                    assert(views(out@) =~= before.push(id@));
                },
                None => {},
            }
        }
    }
    assert(d@.take(n as int) =~= d@);
    out
}

/// Sorts the stage rows into main and event stages (see `sorted_stages`).
fn sort_stages<P, N>(server: Server, rows: Vec<StageRow<P>>, zones: &Zones) -> (r: (
    Vec<StageEntry<P, N>>,
    Vec<StageEntry<P, N>>,
))
    ensures
        (entry_views(r.0@), entry_views(r.1@)) == sorted_stages::<P, N>(server, rows@, zones.table()),
{
    let ghost orig = rows@;
    let mut main: Vec<StageEntry<P, N>> = Vec::new();
    let mut event: Vec<StageEntry<P, N>> = Vec::new();
    assert(orig.take(0) =~= Seq::<StageRow<P>>::empty());
    assert(entry_views(main@) =~= Seq::<StageEntryV<P, N>>::empty());
    for row in it: rows.into_iter()
        invariant
            orig == it.seq(),
            (entry_views(main@), entry_views(event@)) == sorted_stages::<P, N>(
                server,
                orig.take(it.index() as int),
                zones.table(),
            ),
    {
        let ghost i = it.index() as int;
        let ghost r0 = row;
        assert(orig.take(i + 1).drop_last() =~= orig.take(i));
        assert(orig.take(i + 1).last() == r0);
        let kind = classify_stage(server, row.stage_type.as_str(), row.zone_id.as_str(), row.stage_id.as_str());
        match kind {
            StageKind::Ignored => {},
            _ => {
                let zone_name = to_owned(zones.get_str(row.zone_id.as_str()));
                let main_drop_ids = normal_drop_ids(&row.drop_infos);
                let StageRow { stage_id, code, zone_id, stage_type, drop_infos, payload } = row;
                let e: StageEntry<P, N> = StageEntry {
                    stage_id,
                    code,
                    zone_id,
                    zone_name,
                    main_drop_ids,
                    payload,
                    drops: Vec::new(),
                    max_times: 0,
                };
                assert(e@.drops =~= Seq::<(Seq<char>, N, i64)>::empty());
                assert(e@ == new_entry::<P, N>(r0, zones.table()));
                if kind == StageKind::Main {
                    upsert_entry(&mut main, e);
                } else {
                    upsert_entry(&mut event, e);
                }
            },
        }
    }
    assert(orig.take(orig.len() as int) =~= orig);
    (main, event)
}

/// Counts one record for a stage (see `with_record`).
fn add_record<P, N: Copy>(e: &mut StageEntry<P, N>, r: &DropRecord<N>)
    ensures
        final(e)@ == with_record(old(e)@, *r),
{
    let ghost d = drop_views(e.drops@);
    proof {
        lemma_drop_index(d, r.item_id@);
    }
    let q: N = r.quantity;
    let n = e.drops.len();
    let mut j: usize = 0;
    let mut found: Option<usize> = None;
    while j < n
        invariant_except_break
            found is None,
        invariant
            n == e.drops@.len(),
            j <= n,
            d == drop_views(e.drops@),
            forall|k: int| 0 <= k < j ==> d[k].0 != r.item_id@,
        ensures
            found is None ==> j == n,
            found matches Some(k) ==> k == j && j < n && d[j as int].0 == r.item_id@,
        decreases n - j,
    {
        if str_eq(e.drops[j].0.as_str(), r.item_id.as_str()) {
            found = Some(j);
            break;
        }
        j = j + 1;
    }
    let x = (r.item_id.clone(), q, r.times);
    match found {
        Some(k) => {
            assert(d[k as int].0 == r.item_id@);
            assert(drop_index(d, r.item_id@) == Some(k as int)) by {
                lemma_drop_index(d, r.item_id@);
            }
            e.drops[k] = x;
            assert(drop_views(e.drops@) =~= d.update(k as int, (r.item_id@, r.quantity, r.times)));
        },
        None => {
            assert(drop_index(d, r.item_id@) is None) by {
                lemma_drop_index(d, r.item_id@);
            }
            e.drops.push(x);
            assert(drop_views(e.drops@) =~= d.push((r.item_id@, r.quantity, r.times)));
        },
    }
    if r.times > e.max_times {
        e.max_times = r.times;
    }
}

/// Counts the drop records (see `with_records`).
fn add_records<P, N: Copy>(
    main: &mut Vec<StageEntry<P, N>>,
    event: &mut Vec<StageEntry<P, N>>,
    records: &Vec<DropRecord<N>>,
    item_names: &ItemNames,
    server: Server,
)
    ensures
        (entry_views(final(main)@), entry_views(final(event)@)) == with_records(
            entry_views(old(main)@),
            entry_views(old(event)@),
            records@,
            item_names@,
            server,
        ),
{
    let ghost m0 = entry_views(main@);
    let ghost e0 = entry_views(event@);
    let vt = value_target(server);
    let n = records.len();
    assert(records@.take(0) =~= Seq::<DropRecord<N>>::empty());
    for i in 0..n
        invariant
            n == records@.len(),
            vt@.map_values(|s: &str| s@) == for_server(value_target_base(), value_target_new(), server),
            (entry_views(main@), entry_views(event@)) == with_records(
                m0,
                e0,
                records@.take(i as int),
                item_names@,
                server,
            ),
    {
        assert(records@.take(i + 1).drop_last() =~= records@.take(i as int));
        assert(records@.take(i + 1).last() == records@[i as int]);
        let r = &records[i];
        let ghost mv = entry_views(main@);
        let ghost ev = entry_views(event@);
        let zh = item_names.get_zh(r.item_id.as_str());
        let is_counted = str_list_contains(&vt, zh);
        assert(is_counted == counted(item_names@, server, r.item_id@));
        match find_entry(main, r.stage_id.as_str()) {
            Some(j) => {
                if !r.has_end && is_counted {
                    add_record(&mut main[j], r);
                    assert(entry_views(main@) =~= mv.update(j as int, with_record(mv[j as int], *r)));
                }
            },
            None => match find_entry(event, r.stage_id.as_str()) {
                Some(j) => {
                    if is_counted {
                        add_record(&mut event[j], r);
                        assert(entry_views(event@) =~= ev.update(j as int, with_record(ev[j as int], *r)));
                    }
                },
                None => {},
            },
        }
    }
    assert(records@.take(n as int) =~= records@);
}

/// The code (with its rerun mark) and id of each stage (see `code_ids`).
fn code_map<P, N>(s: &Vec<StageEntry<P, N>>) -> (r: StrMap)
    ensures
        r@ == code_ids(entry_views(s@)),
{
    let ghost v = entry_views(s@);
    let mut m = StrMap::new();
    let n = s.len();
    assert(code_ids(v.take(0)) =~= Seq::<(Seq<char>, Seq<char>)>::empty());
    for i in 0..n
        invariant
            n == s@.len(),
            v == entry_views(s@),
            m@ == code_ids(v.take(i as int)),
    {
        let code = name_with_replicate(s[i].code.as_str(), s[i].zone_id.as_str());
        m.insert(code, s[i].stage_id.clone());
        assert(code_ids(v.take(i + 1)) =~= code_ids(v.take(i as int)).push(
            (stage_code(v[i as int].code, v[i as int].zone_id), v[i as int].stage_id),
        ));
    }
    assert(v.take(n as int) =~= v);
    m
}

/// Builds the stage tables of `server` (see `stage_tables_spec`) from the
/// stage rows, the drop records, the category file, the item names (which
/// say whether a record's item is valued) and the zone names.
pub fn build_stage_tables<P, N: Copy>(
    server: Server,
    stages: Vec<StageRow<P>>,
    records: &Vec<DropRecord<N>>,
    category_file: &StageCategoryFile,
    item_names: &ItemNames,
    zones: &Zones,
) -> (r: StageTables<P, N>)
    ensures
        r@ == stage_tables_spec::<P, N>(
            server,
            stages@,
            records@,
            if server == Server::Mainland {
                super::table::table_insert_all(category_file.main@, category_file.new@)
            } else {
                category_file.main@
            },
            item_names@,
            zones.table(),
        ),
{
    let (mut main, mut event) = sort_stages::<P, N>(server, stages, zones);
    add_records(&mut main, &mut event, records, item_names, server);
    let main_code_to_id = code_map(&main);
    let event_code_to_id = code_map(&event);
    let dict = stage_category_dict(category_file, server);
    let entries = dict.entries();
    let ghost cv = entries@.map_values(|e: (String, StageCategoryInfo)| (e.0@, e.1@));
    let mut categories: Vec<(String, CategoryInstance)> = Vec::new();
    let n = entries.len();
    assert(cv.take(0) =~= Seq::<(Seq<char>, InfoV)>::empty());
    for i in 0..n
        invariant
            n == entries@.len(),
            cv == entries@.map_values(|e: (String, StageCategoryInfo)| (e.0@, e.1@)),
            categories@.map_values(
                |c: (String, CategoryInstance)| (c.0@, c.1.info@, views(c.1.stage_ids@)),
            ) == category_ids(cv.take(i as int), main_code_to_id@),
    {
        let ghost before = categories@.map_values(
            |c: (String, CategoryInstance)| (c.0@, c.1.info@, views(c.1.stage_ids@)),
        );
        let info = entries[i].1.copy();
        let stage_ids = category_stage_ids(&info, &main_code_to_id);
        let inst = CategoryInstance { info, stage_ids };
        categories.push((entries[i].0.clone(), inst));
        assert(categories@.map_values(
            |c: (String, CategoryInstance)| (c.0@, c.1.info@, views(c.1.stage_ids@)),
        ) =~= before.push((cv[i as int].0, cv[i as int].1, stage_ids_of(cv[i as int].1.0, main_code_to_id@))));
        assert(category_ids(cv.take(i + 1), main_code_to_id@) =~= category_ids(cv.take(i as int), main_code_to_id@).push(
            (cv[i as int].0, cv[i as int].1, stage_ids_of(cv[i as int].1.0, main_code_to_id@)),
        ));
    }
    assert(cv.take(n as int) =~= cv);
    StageTables { main, event, main_code_to_id, event_code_to_id, categories }
}

} // verus!
