//! Which tag combinations of a recruitment guarantee which operators.
use vstd::prelude::*;
use itertools::Itertools;
use chrono::{LocalResult, NaiveDate, TimeZone, Utc};
use chrono_tz::Asia::Tokyo;
use std::collections::BTreeSet;
use chrono::Datelike;
use crate::text::{list_contains, str_eq, views};
use crate::sorting::{insert_sorted, insertion_sort, lemma_insert_sorted_at};
use crate::star_sets::set_insert;
use super::model::{clone_strings, clone_tag, tag_order, tag_type_spec, FutureEntry, Operator, OperatorDb, Tag, TagList, TagType};

verus! {

/// The most tags a recruitment can be edited to hold.
pub const MAX_TAG_COUNT: usize = 8;

/// An operator by name and rarity.
#[derive(Debug)]
pub struct OperatorRef {
    pub name: String,
    pub stars: u8,
}

impl View for OperatorRef {
    type V = (Seq<char>, u8);

    open spec fn view(&self) -> (Seq<char>, u8) {
        (self.name@, self.stars)
    }
}

/// Operators that become recruitable at `release` (seconds since the epoch).
#[derive(Debug)]
pub struct FutureRelease {
    pub release: i64,
    pub operators: Vec<Operator>,
}

/// Tag dictionary and operator lists, loaded once.
#[derive(Debug)]
pub struct RecruitData {
    pub(crate) tag_list: TagList,
    /// Every tag name in definition order (see `tag_order`).
    pub(crate) tag_name_order: Vec<String>,
    pub(crate) main: Vec<Operator>,
    /// Future operators whose release date could be read, in file order.
    pub(crate) future: Vec<FutureRelease>,
}

/// The result for one tag combination.
#[derive(Debug)]
pub struct MatchItem {
    pub combo: Vec<String>,
    pub min_star: u8,
    /// Sorted by rarity, ascending; ties keep their order.
    pub operators: Vec<OperatorRef>,
    pub star_set: BTreeSet<u8>,
    pub contains_pickup: bool,
    pub pickup_target: Vec<String>,
}

/// The view of a `MatchItem`: combo names, lowest rarity, operators, the set
/// of rarities, whether a pickup is contained, and the contained pickups.
pub type MatchItemV = (Seq<Seq<char>>, u8, Seq<(Seq<char>, u8)>, Set<u8>, bool, Seq<Seq<char>>);

impl View for MatchItem {
    type V = MatchItemV;

    open spec fn view(&self) -> MatchItemV {
        (
            views(self.combo@),
            self.min_star,
            self.operators@.map_values(|o: OperatorRef| o@),
            self.star_set@,
            self.contains_pickup,
            views(self.pickup_target@),
        )
    }
}

// ---------------------------------------------------------------------------
// Specification
// ---------------------------------------------------------------------------

/// Whether `op` meets the single tag `t`.
pub open spec fn tag_ok(op: Operator, t: (Seq<char>, TagType)) -> bool {
    match t.1 {
        TagType::Elite => (op.stars == 5 && t.0 == "エリート"@) || (op.stars == 6 && t.0
            == "上級エリート"@),
        TagType::Job => op.job@ == t.0,
        TagType::Other => views(op.tags@).contains(t.0),
    }
}

/// Whether `op` meets every tag of `combo`; a 6-star operator additionally
/// needs an elite tag among them.
pub open spec fn satisfies(op: Operator, combo: Seq<(Seq<char>, TagType)>) -> bool {
    &&& forall|i: int| 0 <= i < combo.len() ==> tag_ok(op, #[trigger] combo[i])
    &&& op.stars == 6 ==> exists|i: int|
        0 <= i < combo.len() && (#[trigger] combo[i]).1 == TagType::Elite
}

/// The smallest rarity that is at least 3, if any.
pub open spec fn lowest_from3(s: Seq<u8>) -> Option<u8>
    decreases s.len(),
{
    if s.len() == 0 {
        None
    } else {
        let r = lowest_from3(s.drop_last());
        let x = s.last();
        if x >= 3 {
            match r {
                Some(m) => Some(if x < m {
                    x
                } else {
                    m
                }),
                None => Some(x),
            }
        } else {
            r
        }
    }
}

/// The largest rarity (0 for none).
pub open spec fn highest(s: Seq<u8>) -> u8
    decreases s.len(),
{
    if s.len() == 0 {
        0
    } else {
        let m = highest(s.drop_last());
        if s.last() > m {
            s.last()
        } else {
            m
        }
    }
}

/// The rarity a combination guarantees: the smallest rarity of at least 3 if
/// any, else the largest rarity (1- and 2-star only combinations).
pub open spec fn min_star_spec(s: Seq<u8>) -> u8 {
    match lowest_from3(s) {
        Some(m) => m,
        None => highest(s),
    }
}

/// The known tags among `input`, each once, in the order of `order`.
pub open spec fn normalized_names(order: Seq<Seq<char>>, input: Seq<Seq<char>>) -> Seq<Seq<char>>
    decreases order.len(),
{
    if order.len() == 0 {
        seq![]
    } else {
        let prev = normalized_names(order.drop_last(), input);
        let x = order.last();
        if input.contains(x) && !prev.contains(x) {
            prev.push(x)
        } else {
            prev
        }
    }
}

/// The normalized input tags, classified.
pub open spec fn normalized_tags(tl: TagList, input: Seq<Seq<char>>) -> Seq<(Seq<char>, TagType)> {
    normalized_names(tag_order(tl), input).map_values(|n: Seq<char>| (n, tag_type_spec(tl, n)))
}

/// The `k`-element index combinations of `start..n` in lexicographic order.
pub open spec fn combos_from(start: nat, n: nat, k: nat) -> Seq<Seq<usize>>
    decreases n - start,
{
    if k == 0 {
        seq![seq![]]
    } else if start >= n {
        seq![]
    } else {
        combos_from(start + 1, n, (k - 1) as nat).map_values(
            |c: Seq<usize>| seq![start as usize] + c,
        ) + combos_from(start + 1, n, k)
    }
}

/// The tag combinations of size `k`, in lexicographic order of positions.
pub open spec fn keys_of_size(tags: Seq<(Seq<char>, TagType)>, k: nat) -> Seq<
    Seq<(Seq<char>, TagType)>,
> {
    combos_from(0, tags.len(), k).map_values(
        |c: Seq<usize>| c.map_values(|i: usize| tags[i as int]),
    )
}

/// All combinations of one, two and three tags, in that order.
pub open spec fn combo_keys(tags: Seq<(Seq<char>, TagType)>) -> Seq<Seq<(Seq<char>, TagType)>> {
    keys_of_size(tags, 1) + keys_of_size(tags, 2) + keys_of_size(tags, 3)
}

/// The operators of `ops` meeting `key`, by name and rarity, in order.
pub open spec fn refs_of(ops: Seq<Operator>, key: Seq<(Seq<char>, TagType)>) -> Seq<(Seq<char>, u8)> {
    ops.filter_map(
        |op: Operator|
            if satisfies(op, key) {
                Some((op.name@, op.stars))
            } else {
                None
            },
    )
}

/// Whether a future release counts: it has happened, or the mainland
/// server (which has every future operator) is asked about.
pub open spec fn release_open(release: i64, now: i64, is_global: bool) -> bool {
    now >= release || !is_global
}

/// The future operators meeting `key` whose release counts, in order.
pub open spec fn future_refs(
    fut: Seq<FutureRelease>,
    key: Seq<(Seq<char>, TagType)>,
    now: i64,
    is_global: bool,
) -> Seq<(Seq<char>, u8)>
    decreases fut.len(),
{
    if fut.len() == 0 {
        seq![]
    } else {
        future_refs(fut.drop_last(), key, now, is_global) + if release_open(
            fut.last().release,
            now,
            is_global,
        ) {
            refs_of(fut.last().operators@, key)
        } else {
            seq![]
        }
    }
}

/// Ordering of operators by rarity.
pub open spec fn by_stars() -> spec_fn((Seq<char>, u8), (Seq<char>, u8)) -> bool {
    |a: (Seq<char>, u8), b: (Seq<char>, u8)| a.1 <= b.1
}

/// Every operator meeting `key`: current ones, then future ones that
/// count, stably sorted by rarity.
pub open spec fn satisfied_refs(
    main: Seq<Operator>,
    fut: Seq<FutureRelease>,
    key: Seq<(Seq<char>, TagType)>,
    now: i64,
    is_global: bool,
) -> Seq<(Seq<char>, u8)> {
    insertion_sort(refs_of(main, key) + future_refs(fut, key, now, is_global), by_stars())
}

/// The rarities of operators, in order.
pub open spec fn star_list(ops: Seq<(Seq<char>, u8)>) -> Seq<u8> {
    ops.map_values(|r: (Seq<char>, u8)| r.1)
}

/// The pickup operators (in pickup order) that are among `names`.
pub open spec fn pickup_targets(pickup: Seq<Seq<char>>, names: Seq<Seq<char>>) -> Seq<Seq<char>> {
    pickup.filter_map(
        |t: Seq<char>|
            if names.contains(t) {
                Some(t)
            } else {
                None
            },
    )
}

/// The views of an optional list of strings.
pub open spec fn opt_views(p: Option<&Vec<String>>) -> Option<Seq<Seq<char>>> {
    match p {
        Some(v) => Some(views(v@)),
        None => None,
    }
}

/// The result for one combination, or `None` when no operator meets it or
/// it is not kept: kept are combinations holding a pickup, combinations
/// guaranteeing a 1-star robot when the threshold is 4, and combinations
/// guaranteeing at least `min_star`.
pub open spec fn item_for(
    main: Seq<Operator>,
    fut: Seq<FutureRelease>,
    key: Seq<(Seq<char>, TagType)>,
    now: i64,
    is_global: bool,
    min_star: u8,
    pickup: Option<Seq<Seq<char>>>,
) -> Option<MatchItemV> {
    let sat = satisfied_refs(main, fut, key, now, is_global);
    let stars = star_list(sat);
    let ms = min_star_spec(stars);
    let names = sat.map_values(|r: (Seq<char>, u8)| r.0);
    let pt = match pickup {
        Some(pu) => pickup_targets(pu, names),
        None => seq![],
    };
    let cp = pt.len() > 0;
    if sat.len() == 0 || !(cp || (ms == 1 && min_star == 4) || ms >= min_star) {
        None
    } else {
        Some((key.map_values(|t: (Seq<char>, TagType)| t.0), ms, sat, stars.to_set(), cp, pt))
    }
}

/// Every kept combination of the normalized input, in combination order.
pub open spec fn calculate_spec(
    data: RecruitData,
    input: Seq<Seq<char>>,
    is_global: bool,
    min_star: u8,
    pickup: Option<Seq<Seq<char>>>,
    now: i64,
) -> Seq<MatchItemV> {
    combo_keys(normalized_tags(data.tags(), input)).filter_map(
        |key: Seq<(Seq<char>, TagType)>|
            item_for(data.main_ops(), data.releases(), key, now, is_global, min_star, pickup),
    )
}

/// The release instant of a future entry: the date read as `%Y%m%d`, or
/// failing that as `%y%m%d`, at `hour`:00 Tokyo time.
pub open spec fn release_of(date: Seq<char>, hour: u32) -> Option<i64> {
    let parsed = match spec_parse_date(date, "%Y%m%d"@) {
        Some(d) => Some(d),
        None => spec_parse_date(date, "%y%m%d"@),
    };
    match parsed {
        Some(d) => spec_tokyo_timestamp(d, hour),
        None => None,
    }
}

/// The future entries whose date can be read, with their release instants.
pub open spec fn releases_of(future: Seq<FutureEntry>, hour: u32) -> Seq<(i64, Vec<Operator>)> {
    future.filter_map(
        |e: FutureEntry|
            match release_of(e.yyyymmdd@, hour) {
                Some(t) => Some((t, e.op_list)),
                None => None,
            },
    )
}

/// The future entries that have a release instant, with it, given the
/// instant of each entry (`None` when its date could not be read).
pub open spec fn kept_releases(future: Seq<FutureEntry>, instants: Seq<Option<i64>>) -> Seq<(i64, Vec<Operator>)>
    decreases future.len(),
{
    if future.len() == 0 {
        seq![]
    } else {
        let k = future.len() - 1;
        let p = kept_releases(future.drop_last(), instants);
        match instants[k] {
            Some(t) => p.push((t, future.last().op_list)),
            None => p,
        }
    }
}

/// With the instants of the entries' dates, the entries kept are those of
/// `releases_of`.
proof fn lemma_kept_releases(future: Seq<FutureEntry>, instants: Seq<Option<i64>>, hour: u32)
    requires
        instants.len() == future.len(),
        forall|i: int| 0 <= i < future.len() ==> instants[i] == release_of(#[trigger] future[i].yyyymmdd@, hour),
    ensures
        kept_releases(future, instants) == releases_of(future, hour),
    decreases future.len(),
{
    if future.len() > 0 {
        let d = future.drop_last();
        let di = instants.take(d.len() as int);
        assert forall|i: int| 0 <= i < d.len() implies di[i] == release_of(#[trigger] d[i].yyyymmdd@, hour) by {
            assert(d[i] == future[i]);
        }
        lemma_kept_releases(d, di, hour);
        lemma_kept_prefix(d, instants, di);
        assert(future.last() == future[future.len() - 1]);
        assert(d =~= future.take(future.len() - 1));
    }
}

/// Only the instants of the entries matter.
proof fn lemma_kept_prefix(future: Seq<FutureEntry>, a: Seq<Option<i64>>, b: Seq<Option<i64>>)
    requires
        a.len() >= future.len(),
        b.len() >= future.len(),
        forall|i: int| 0 <= i < future.len() ==> a[i] == b[i],
    ensures
        kept_releases(future, a) == kept_releases(future, b),
    decreases future.len(),
{
    if future.len() > 0 {
        lemma_kept_prefix(future.drop_last(), a, b);
    }
}

// ---------------------------------------------------------------------------
// Outside calls
// ---------------------------------------------------------------------------

/// What `chrono::NaiveDate::parse_from_str(s, fmt)` gives, as (year, month, day).
pub uninterp spec fn spec_parse_date(s: Seq<char>, fmt: Seq<char>) -> Option<(i32, u32, u32)>;

/// The Unix timestamp of the given date at `hour`:00:00 in Asia/Tokyo, as
/// chrono and chrono-tz compute it (the earlier instant when ambiguous).
pub uninterp spec fn spec_tokyo_timestamp(date: (i32, u32, u32), hour: u32) -> Option<i64>;

/// Calls `chrono::NaiveDate::parse_from_str`; the result is named, not
/// described: it depends on `s` and `fmt` alone.
#[verifier::external_body]
fn parse_date(s: &str, fmt: &str) -> (r: Option<(i32, u32, u32)>)
    ensures
        r == spec_parse_date(s@, fmt@),
{
    NaiveDate::parse_from_str(s, fmt).ok().map(|d| (d.year(), d.month(), d.day()))
}

/// Calls chrono-tz's `Tokyo.from_local_datetime` on the date at `hour`:00:00
/// and takes the Unix timestamp (the first instant when ambiguous, none when
/// the local time does not exist). Named, not described.
#[verifier::external_body]
fn tokyo_timestamp(date: (i32, u32, u32), hour: u32) -> (r: Option<i64>)
    ensures
        r == spec_tokyo_timestamp(date, hour),
{
    let naive = NaiveDate::from_ymd_opt(date.0, date.1, date.2)?.and_hms_opt(hour, 0, 0)?;
    match Tokyo.from_local_datetime(&naive) {
        LocalResult::Single(dt) => Some(dt.timestamp()),
        LocalResult::Ambiguous(dt, _) => Some(dt.timestamp()),
        LocalResult::None => None,
    }
}

/// The current Unix time in seconds (`chrono::Utc::now`). Nothing is stated
/// of the value: it is the clock's.
#[verifier::external_body]
pub(crate) fn now_timestamp() -> i64 {
    Utc::now().timestamp()
}

/// The `k`-element combinations of `0..n`, from itertools' `combinations`,
/// which yields them in lexicographic order.
#[verifier::external_body]
fn index_combinations(n: usize, k: usize) -> (r: Vec<Vec<usize>>)
    ensures
        r@.map_values(|c: Vec<usize>| c@) == combos_from(0, n as nat, k as nat),
{
    (0..n).combinations(k).collect()
}

// ---------------------------------------------------------------------------
// Laws
// ---------------------------------------------------------------------------

/// The combination holds the tag 上級エリート.
pub open spec fn has_top_elite(combo: Seq<Seq<char>>) -> bool {
    combo.contains("上級エリート"@)
}

/// `h` is the rarity guaranteed by operators of rarities `ops`: one of
/// them, no higher than any of at least 3 stars, and, when all are below 3
/// stars, the highest.
pub open spec fn guaranteed_rarity(ops: Seq<(Seq<char>, u8)>, h: u8) -> bool {
    &&& exists|j: int| 0 <= j < ops.len() && ops[j].1 == h
    &&& forall|j: int| 0 <= j < ops.len() && ops[j].1 >= 3 ==> h <= #[trigger] ops[j].1
    &&& (forall|j: int| 0 <= j < ops.len() ==> ops[j].1 < 3) ==> forall|j: int|
        0 <= j < ops.len() ==> #[trigger] ops[j].1 <= h
}

/// A 6-star operator meets a combination only with 上級エリート in it.
proof fn lemma_six_star_meets(op: Operator, key: Seq<(Seq<char>, TagType)>)
    requires
        satisfies(op, key),
        op.stars == 6,
    ensures
        exists|i: int| 0 <= i < key.len() && key[i].0 == "上級エリート"@,
{
    let i = choose|i: int| 0 <= i < key.len() && (#[trigger] key[i]).1 == TagType::Elite;
    assert(tag_ok(op, key[i]));
}

/// A 6-star operator listed for a combination from an operator list
/// needs 上級エリート in it.
proof fn lemma_refs_six(ops: Seq<Operator>, key: Seq<(Seq<char>, TagType)>, x: (Seq<char>, u8))
    requires
        refs_of(ops, key).contains(x),
        x.1 == 6,
    ensures
        exists|i: int| 0 <= i < key.len() && key[i].0 == "上級エリート"@,
    decreases ops.len(),
{
    if ops.len() > 0 {
        let d = ops.drop_last();
        let l = ops.last();
        let r = refs_of(ops, key);
        let rd = refs_of(d, key);
        if satisfies(l, key) {
            assert(r == rd + seq![(l.name@, l.stars)]);
        } else {
            assert(r == rd);
        }
        let k = choose|k: int| 0 <= k < r.len() && r[k] == x;
        if k < rd.len() {
            assert(rd[k] == x);
            lemma_refs_six(d, key, x);
        } else {
            lemma_six_star_meets(l, key);
        }
    }
}

/// Likewise for the future operators that count.
proof fn lemma_future_six(
    fut: Seq<FutureRelease>,
    key: Seq<(Seq<char>, TagType)>,
    now: i64,
    is_global: bool,
    x: (Seq<char>, u8),
)
    requires
        future_refs(fut, key, now, is_global).contains(x),
        x.1 == 6,
    ensures
        exists|i: int| 0 <= i < key.len() && key[i].0 == "上級エリート"@,
    decreases fut.len(),
{
    if fut.len() > 0 {
        let p = future_refs(fut.drop_last(), key, now, is_global);
        let q: Seq<(Seq<char>, u8)> = if release_open(fut.last().release, now, is_global) {
            refs_of(fut.last().operators@, key)
        } else {
            seq![]
        };
        let r = future_refs(fut, key, now, is_global);
        assert(r == p + q);
        let k = choose|k: int| 0 <= k < r.len() && r[k] == x;
        if k < p.len() {
            assert(p[k] == x);
            lemma_future_six(fut.drop_last(), key, now, is_global, x);
        } else {
            assert(q[k - p.len()] == x);
            lemma_refs_six(fut.last().operators@, key, x);
        }
    }
}

/// Ordering by rarity is a total preorder.
proof fn lemma_by_stars_preorder()
    ensures
        crate::sorting::total_preorder(by_stars()),
{
}

/// Every operator satisfying a combination comes from the current or the
/// future operators.
proof fn lemma_satisfied_from(
    main: Seq<Operator>,
    fut: Seq<FutureRelease>,
    key: Seq<(Seq<char>, TagType)>,
    now: i64,
    is_global: bool,
    x: (Seq<char>, u8),
)
    requires
        satisfied_refs(main, fut, key, now, is_global).contains(x),
    ensures
        refs_of(main, key).contains(x) || future_refs(fut, key, now, is_global).contains(x),
{
    broadcast use vstd::seq_lib::group_seq_properties;
    let all = refs_of(main, key) + future_refs(fut, key, now, is_global);
    lemma_by_stars_preorder();
    crate::sorting::lemma_insertion_sort_props(all, by_stars());
    assert(all.to_multiset().count(x) > 0);
    assert(all.contains(x));
    let k = choose|k: int| 0 <= k < all.len() && all[k] == x;
    if k < refs_of(main, key).len() {
        assert(refs_of(main, key)[k] == x);
    } else {
        assert(future_refs(fut, key, now, is_global)[k - refs_of(main, key).len()] == x);
    }
}

/// The rarity `lowest_from3` gives is one of at least 3 stars, no higher
/// than any such.
proof fn lemma_lowest_from3(s: Seq<u8>)
    ensures
        match lowest_from3(s) {
            Some(m) => m >= 3 && s.contains(m) && forall|j: int| 0 <= j < s.len() && s[j] >= 3 ==> m <= #[trigger] s[j],
            None => forall|j: int| 0 <= j < s.len() ==> #[trigger] s[j] < 3,
        },
    decreases s.len(),
{
    if s.len() > 0 {
        let d = s.drop_last();
        lemma_lowest_from3(d);
        assert forall|j: int| 0 <= j < d.len() implies d[j] == s[j] by {}
        assert(s[s.len() - 1] == s.last());
        match lowest_from3(d) {
            Some(m) => {
                let k = choose|k: int| 0 <= k < d.len() && d[k] == m;
                assert(s[k] == m);
            },
            None => {},
        }
    }
}

/// The highest rarity is one of them (when there is one) and no lower
/// than any.
proof fn lemma_highest(s: Seq<u8>)
    ensures
        s.len() > 0 ==> s.contains(highest(s)),
        forall|j: int| 0 <= j < s.len() ==> #[trigger] s[j] <= highest(s),
    decreases s.len(),
{
    if s.len() > 0 {
        let d = s.drop_last();
        lemma_highest(d);
        assert forall|j: int| 0 <= j < d.len() implies d[j] == s[j] by {}
        assert(s[s.len() - 1] == s.last());
        if s.last() > highest(d) {
            assert(s[s.len() - 1] == highest(s));
        } else if d.len() > 0 {
            let k = choose|k: int| 0 <= k < d.len() && d[k] == highest(d);
            assert(s[k] == highest(s));
        } else {
            assert(s[0] == highest(s));
        }
    }
}

/// `min_star_spec` gives the guaranteed rarity.
proof fn lemma_min_star_guaranteed(ops: Seq<(Seq<char>, u8)>)
    requires
        ops.len() > 0,
    ensures
        guaranteed_rarity(ops, min_star_spec(star_list(ops))),
{
    let s = star_list(ops);
    lemma_lowest_from3(s);
    lemma_highest(s);
    let h = min_star_spec(s);
    assert forall|j: int| 0 <= j < ops.len() implies ops[j].1 == s[j] by {}
    let k = choose|k: int| 0 <= k < s.len() && s[k] == h;
    assert(ops[k].1 == h);
    assert(exists|j: int| 0 <= j < ops.len() && ops[j].1 == h);
    match lowest_from3(s) {
        Some(m) => {
            assert(h == m);
            assert(forall|j: int| 0 <= j < ops.len() && ops[j].1 >= 3 ==> h <= #[trigger] ops[j].1) by {
                assert forall|j: int| 0 <= j < ops.len() && ops[j].1 >= 3 implies h <= #[trigger] ops[j].1 by {
                    assert(s[j] == ops[j].1);
                }
            }
            assert(!(forall|j: int| 0 <= j < ops.len() ==> ops[j].1 < 3)) by {
                assert(ops[k].1 >= 3);
            }
        },
        None => {
            assert(h == highest(s));
            assert forall|j: int| 0 <= j < ops.len() implies #[trigger] ops[j].1 <= h by {
                assert(s[j] == ops[j].1);
            }
            assert forall|j: int| 0 <= j < ops.len() && ops[j].1 >= 3 implies h <= #[trigger] ops[j].1 by {
                assert(s[j] == ops[j].1);
            }
        },
    }
}

/// The results of a recruitment calculation as its items: the combination's
/// tag names, its guaranteed rarity and its operators come from the
/// combination and the operators that meet it.
proof fn lemma_result_item(
    data: RecruitData,
    input: Seq<Seq<char>>,
    is_global: bool,
    min_star: u8,
    pickup: Option<Seq<Seq<char>>>,
    now: i64,
    k: int,
)
    requires
        0 <= k < calculate_spec(data, input, is_global, min_star, pickup, now).len(),
    ensures
        ({
            let m = calculate_spec(data, input, is_global, min_star, pickup, now)[k];
            exists|key: Seq<(Seq<char>, TagType)>|
                #[trigger] item_for(data.main_ops(), data.releases(), key, now, is_global, min_star, pickup)
                    == Some(m)
        }),
{
    let r = calculate_spec(data, input, is_global, min_star, pickup, now);
    let keys = combo_keys(normalized_tags(data.tags(), input));
    let f = |key: Seq<(Seq<char>, TagType)>|
        item_for(data.main_ops(), data.releases(), key, now, is_global, min_star, pickup);
    assert(r == keys.filter_map(f));
    assert(r.contains(r[k]));
    keys.lemma_filter_map_contains(f, r[k]);
}

/// A result that lists a 6-star operator, or guarantees 6 stars, has
/// 上級エリート among its tags: without it no 6-star operator can be
/// recruited.
pub proof fn lemma_six_stars_need_top_elite(
    data: RecruitData,
    input: Seq<Seq<char>>,
    is_global: bool,
    min_star: u8,
    pickup: Option<Seq<Seq<char>>>,
    now: i64,
)
    ensures
        ({
            let r = calculate_spec(data, input, is_global, min_star, pickup, now);
            &&& forall|k: int, j: int|
                0 <= k < r.len() && 0 <= j < r[k].2.len() && (#[trigger] r[k].2[j]).1 == 6 ==> has_top_elite(r[k].0)
            &&& forall|k: int| 0 <= k < r.len() && (#[trigger] r[k]).1 == 6 ==> has_top_elite(r[k].0)
        }),
{
    let r = calculate_spec(data, input, is_global, min_star, pickup, now);
    assert forall|k: int, j: int|
        0 <= k < r.len() && 0 <= j < r[k].2.len() && (#[trigger] r[k].2[j]).1 == 6 implies has_top_elite(r[k].0) by {
        lemma_six_in_item(data, input, is_global, min_star, pickup, now, k, j);
    }
    assert forall|k: int| 0 <= k < r.len() && (#[trigger] r[k]).1 == 6 implies has_top_elite(r[k].0) by {
        lemma_result_item(data, input, is_global, min_star, pickup, now, k);
        let key = choose|key: Seq<(Seq<char>, TagType)>|
            #[trigger] item_for(data.main_ops(), data.releases(), key, now, is_global, min_star, pickup)
                == Some(r[k]);
        let sat = satisfied_refs(data.main_ops(), data.releases(), key, now, is_global);
        lemma_min_star_guaranteed(sat);
        let j = choose|j: int| 0 <= j < sat.len() && sat[j].1 == r[k].1;
        assert(r[k].2 == sat);
        lemma_six_in_item(data, input, is_global, min_star, pickup, now, k, j);
    }
}

/// One listed 6-star operator of one result.
proof fn lemma_six_in_item(
    data: RecruitData,
    input: Seq<Seq<char>>,
    is_global: bool,
    min_star: u8,
    pickup: Option<Seq<Seq<char>>>,
    now: i64,
    k: int,
    j: int,
)
    requires
        0 <= k < calculate_spec(data, input, is_global, min_star, pickup, now).len(),
        0 <= j < calculate_spec(data, input, is_global, min_star, pickup, now)[k].2.len(),
        calculate_spec(data, input, is_global, min_star, pickup, now)[k].2[j].1 == 6,
    ensures
        has_top_elite(calculate_spec(data, input, is_global, min_star, pickup, now)[k].0),
{
    let r = calculate_spec(data, input, is_global, min_star, pickup, now);
    lemma_result_item(data, input, is_global, min_star, pickup, now, k);
    let key = choose|key: Seq<(Seq<char>, TagType)>|
        #[trigger] item_for(data.main_ops(), data.releases(), key, now, is_global, min_star, pickup)
            == Some(r[k]);
    let sat = satisfied_refs(data.main_ops(), data.releases(), key, now, is_global);
    assert(r[k].2 == sat);
    let x = sat[j];
    assert(sat.contains(x));
    lemma_satisfied_from(data.main_ops(), data.releases(), key, now, is_global, x);
    if refs_of(data.main_ops(), key).contains(x) {
        lemma_refs_six(data.main_ops(), key, x);
    } else {
        lemma_future_six(data.releases(), key, now, is_global, x);
    }
    let i = choose|i: int| 0 <= i < key.len() && key[i].0 == "上級エリート"@;
    let names = key.map_values(|t: (Seq<char>, TagType)| t.0);
    assert(r[k].0 == names);
    assert(names[i] == "上級エリート"@);
}

/// The rarity a result guarantees is that of its operators: the lowest of
/// at least 3 stars, or the highest when all are below 3 stars.
pub proof fn lemma_result_guaranteed_rarity(
    data: RecruitData,
    input: Seq<Seq<char>>,
    is_global: bool,
    min_star: u8,
    pickup: Option<Seq<Seq<char>>>,
    now: i64,
)
    ensures
        ({
            let r = calculate_spec(data, input, is_global, min_star, pickup, now);
            forall|k: int| 0 <= k < r.len() ==> guaranteed_rarity((#[trigger] r[k]).2, r[k].1)
        }),
{
    let r = calculate_spec(data, input, is_global, min_star, pickup, now);
    assert forall|k: int| 0 <= k < r.len() implies guaranteed_rarity((#[trigger] r[k]).2, r[k].1) by {
        lemma_result_item(data, input, is_global, min_star, pickup, now, k);
        let key = choose|key: Seq<(Seq<char>, TagType)>|
            #[trigger] item_for(data.main_ops(), data.releases(), key, now, is_global, min_star, pickup)
                == Some(r[k]);
        let sat = satisfied_refs(data.main_ops(), data.releases(), key, now, is_global);
        lemma_min_star_guaranteed(sat);
    }
}

// ---------------------------------------------------------------------------
// Proofs
// ---------------------------------------------------------------------------

/// Every index of every combination lies in `start..n`.
pub proof fn lemma_combos_in_range(start: nat, n: nat, k: nat)
    requires
        n <= usize::MAX,
    ensures
        forall|i: int, j: int|
            0 <= i < combos_from(start, n, k).len() && 0 <= j < combos_from(start, n, k)[i].len()
                ==> start <= #[trigger] combos_from(start, n, k)[i][j] < n,
    decreases n - start,
{
    if k == 0 {
    } else if start >= n {
    } else {
        lemma_combos_in_range(start + 1, n, (k - 1) as nat);
        lemma_combos_in_range(start + 1, n, k);
        let a = combos_from(start + 1, n, (k - 1) as nat).map_values(
            |c: Seq<usize>| seq![start as usize] + c,
        );
        let b = combos_from(start + 1, n, k);
        let all = combos_from(start, n, k);
        assert(all == a + b);
        assert forall|i: int, j: int| 0 <= i < all.len() && 0 <= j < all[i].len() implies start
            <= #[trigger] all[i][j] < n by {
            if i < a.len() {
                let c = combos_from(start + 1, n, (k - 1) as nat)[i];
                assert(a[i] == seq![start as usize] + c);
                assert(all[i] == a[i]);
                if j > 0 {
                    assert(all[i][j] == c[j - 1]);
                }
            } else {
                assert(all[i] == b[i - a.len()]);
            }
        }
    }
}

// ---------------------------------------------------------------------------
// Implementation
// ---------------------------------------------------------------------------

/// The kind of the tag called `name`.
pub fn tag_type_of(tag_list: &TagList, name: &str) -> (r: TagType)
    ensures
        r == tag_type_spec(*tag_list, name@),
{
    if list_contains(&tag_list.elite_tags, name) {
        TagType::Elite
    } else if list_contains(&tag_list.job_tags, name) {
        TagType::Job
    } else {
        TagType::Other
    }
}

/// Whether `op` meets every tag of `combo`.
pub fn satisfy_tags(op: &Operator, combo: &Vec<Tag>) -> (r: bool)
    ensures
        r == satisfies(*op, combo@.map_values(|t: Tag| t@)),
{
    let ghost cv = combo@.map_values(|t: Tag| t@);
    let need_elite = op.stars == 6;
    let mut has_elite = false;
    let n = combo.len();
    for i in 0..n
        invariant
            n == combo@.len(),
            cv == combo@.map_values(|t: Tag| t@),
            forall|j: int| 0 <= j < i ==> tag_ok(*op, #[trigger] cv[j]),
            has_elite == exists|j: int| 0 <= j < i && (#[trigger] cv[j]).1 == TagType::Elite,
    {
        let tag = &combo[i];
        assert(cv[i as int] == tag@);
        match tag.tag_type {
            TagType::Elite => {
                has_elite = true;
                let ok = (op.stars == 5 && str_eq(tag.name.as_str(), "エリート")) || (op.stars == 6
                    && str_eq(tag.name.as_str(), "上級エリート"));
                if !ok {
                    return false;
                }
            },
            TagType::Job => {
                if !str_eq(op.job.as_str(), tag.name.as_str()) {
                    return false;
                }
            },
            TagType::Other => {
                if !list_contains(&op.tags, tag.name.as_str()) {
                    return false;
                }
            },
        }
    }
    if need_elite && !has_elite {
        return false;
    }
    true
}

/// The rarity a set of operators guarantees (see `min_star_spec`).
pub fn min_star_of(ops: &Vec<OperatorRef>) -> (r: u8)
    ensures
        r == min_star_spec(ops@.map_values(|o: OperatorRef| o.stars)),
{
    let ghost s = ops@.map_values(|o: OperatorRef| o.stars);
    let mut low: Option<u8> = None;
    let mut high: u8 = 0;
    let n = ops.len();
    assert(s.take(0) =~= Seq::<u8>::empty());
    for i in 0..n
        invariant
            n == ops@.len(),
            s == ops@.map_values(|o: OperatorRef| o.stars),
            low == lowest_from3(s.take(i as int)),
            high == highest(s.take(i as int)),
    {
        assert(s.take(i + 1).drop_last() =~= s.take(i as int));
        assert(s.take(i + 1).last() == ops@[i as int].stars);
        let x = ops[i].stars;
        if x >= 3 {
            low = match low {
                Some(m) => Some(
                    if x < m {
                        x
                    } else {
                        m
                    },
                ),
                None => Some(x),
            };
        }
        if x > high {
            high = x;
        }
    }
    assert(s.take(n as int) =~= s);
    match low {
        Some(m) => m,
        None => high,
    }
}

/// Inserts `x` after the last operator of no greater rarity.
fn insert_by_stars(v: &mut Vec<OperatorRef>, x: OperatorRef)
    ensures
        final(v)@.map_values(|o: OperatorRef| o@) == insert_sorted(
            old(v)@.map_values(|o: OperatorRef| o@),
            x@,
            by_stars(),
        ),
{
    let ghost s = v@.map_values(|o: OperatorRef| o@);
    let mut k = v.len();
    while k > 0 && v[k - 1].stars > x.stars
        invariant
            k <= v@.len(),
            s == v@.map_values(|o: OperatorRef| o@),
            forall|j: int| k <= j < s.len() ==> !(by_stars())(#[trigger] s[j], x@),
        decreases k,
    {
        k = k - 1;
    }
    proof {
        lemma_insert_sorted_at(s, x@, by_stars(), k as int);
    }
    let ghost xv = x@;
    v.insert(k, x);
    assert(v@.map_values(|o: OperatorRef| o@) =~= s.take(k as int).push(xv) + s.skip(k as int));
}

/// Copies the operators of `ops` meeting `key` onto the end of `out`.
fn push_refs(out: &mut Vec<OperatorRef>, ops: &Vec<Operator>, key: &Vec<Tag>)
    ensures
        final(out)@.map_values(|o: OperatorRef| o@) == old(out)@.map_values(|o: OperatorRef| o@)
            + refs_of(ops@, key@.map_values(|t: Tag| t@)),
{
    let ghost kv = key@.map_values(|t: Tag| t@);
    let ghost base = out@.map_values(|o: OperatorRef| o@);
    let n = ops.len();
    assert(ops@.take(0) =~= Seq::<Operator>::empty());
    assert(base + refs_of(ops@.take(0), kv) =~= base);
    for i in 0..n
        invariant
            n == ops@.len(),
            kv == key@.map_values(|t: Tag| t@),
            out@.map_values(|o: OperatorRef| o@) == base + refs_of(ops@.take(i as int), kv),
    {
        assert(ops@.take(i + 1).drop_last() =~= ops@.take(i as int));
        assert(ops@.take(i + 1).last() == ops@[i as int]);
        let ghost before = out@.map_values(|o: OperatorRef| o@);
        if satisfy_tags(&ops[i], key) {
            out.push(OperatorRef { name: ops[i].name.clone(), stars: ops[i].stars });
            assert(out@.map_values(|o: OperatorRef| o@) =~= before.push(
                (ops@[i as int].name@, ops@[i as int].stars),
            ));
        }
        assert(out@.map_values(|o: OperatorRef| o@) =~= base + refs_of(ops@.take(i + 1), kv));
    }
    assert(ops@.take(n as int) =~= ops@);
}

/// The pickups among the names of `ops`.
fn pickup_targets_of(pickup: &Vec<String>, ops: &Vec<OperatorRef>) -> (r: Vec<String>)
    ensures
        views(r@) == pickup_targets(views(pickup@), ops@.map_values(|o: OperatorRef| o@.0)),
{
    let ghost names = ops@.map_values(|o: OperatorRef| o@.0);
    let ghost pv = views(pickup@);
    let mut out: Vec<String> = Vec::new();
    let n = pickup.len();
    assert(pv.take(0) =~= Seq::<Seq<char>>::empty());
    for i in 0..n
        invariant
            n == pickup@.len(),
            pv == views(pickup@),
            names == ops@.map_values(|o: OperatorRef| o@.0),
            views(out@) == pickup_targets(pv.take(i as int), names),
    {
        assert(pv.take(i + 1).drop_last() =~= pv.take(i as int));
        assert(pv.take(i + 1).last() == pickup@[i as int]@);
        let mut found = false;
        let m = ops.len();
        for j in 0..m
            invariant
                m == ops@.len(),
                i < n,
                n == pickup@.len(),
                names == ops@.map_values(|o: OperatorRef| o@.0),
                found == exists|q: int| 0 <= q < j && names[q] == pickup@[i as int]@,
        {
            assert(names[j as int] == ops@[j as int].name@);
            if str_eq(ops[j].name.as_str(), pickup[i].as_str()) {
                found = true;
            }
        }
        assert(found == names.contains(pickup@[i as int]@));
        if found {
            let ghost before = views(out@);
            out.push(pickup[i].clone());
            assert(views(out@) =~= before.push(pickup@[i as int]@));
        }
    }
    assert(pv.take(n as int) =~= pv);
    out
}

/// The future entries that have a release instant, each with it, in
/// order; `instants` holds the instant of each entry, `None` when its date
/// could not be read.
pub fn releases_from(future: Vec<FutureEntry>, instants: &Vec<Option<i64>>) -> (r: Vec<FutureRelease>)
    requires
        instants@.len() == future@.len(),
    ensures
        r@.map_values(|f: FutureRelease| (f.release, f.operators)) == kept_releases(future@, instants@),
{
    let ghost fv = future@;
    let mut releases: Vec<FutureRelease> = Vec::new();
    let mut k: usize = 0;
    let n = instants.len();
    assert(fv.take(0) =~= Seq::<FutureEntry>::empty());
    for e in it: future
        invariant
            it.seq() == fv,
            k == it.index(),
            k <= fv.len(),
            n == fv.len(),
            instants@.len() == fv.len(),
            releases@.map_values(|f: FutureRelease| (f.release, f.operators)) == kept_releases(
                fv.take(it.index() as int),
                instants@,
            ),
    {
        let ghost i = it.index();
        assert(fv.take(i + 1).drop_last() =~= fv.take(i as int));
        assert(fv.take(i + 1).last() == e);
        let ghost before = releases@.map_values(|f: FutureRelease| (f.release, f.operators));
        match instants[k] {
            Some(t) => {
                let FutureEntry { comment: _, yyyymmdd: _, op_list } = e;
                releases.push(FutureRelease { release: t, operators: op_list });
                assert(releases@.map_values(|f: FutureRelease| (f.release, f.operators))
                    =~= before.push((t, op_list)));
            },
            None => {},
        }
        k = k + 1;
    }
    let ghost n = fv.len();
    assert(fv.take(n as int) =~= fv);
    releases
}

impl RecruitData {
    /// The tag list.
    pub closed spec fn tags(&self) -> TagList {
        self.tag_list
    }

    /// The operators that can be recruited now.
    pub closed spec fn main_ops(&self) -> Seq<Operator> {
        self.main@
    }

    /// The future operators with their release instants, in file order.
    pub closed spec fn releases(&self) -> Seq<FutureRelease> {
        self.future@
    }

    /// `tag_name_order` lists the tags of `tag_list` in definition order.
    #[verifier::type_invariant]
    pub(crate) closed spec fn wf(&self) -> bool {
        views(self.tag_name_order@) == tag_order(self.tag_list)
    }

    /// Builds the data from the operator database and the tag list; future
    /// entries become recruitable at `future_hour`:00 Tokyo time on their
    /// date, and entries whose date cannot be read are left out.
    pub fn new(db: OperatorDb, tag_list: TagList, future_hour: u32) -> (r: RecruitData)
        ensures
            r.tags() == tag_list,
            r.main_ops() == db.main@,
            r.releases().map_values(|f: FutureRelease| (f.release, f.operators)) == releases_of(
                db.future@,
                future_hour,
            ),
    {
        let order = order_of(&tag_list);
        let OperatorDb { main, future } = db;
        let ghost fv = future@;
        let mut instants: Vec<Option<i64>> = Vec::new();
        let n = future.len();
        for i in 0..n
            invariant
                n == future@.len(),
                fv == future@,
                instants@.len() == i,
                forall|j: int| 0 <= j < i ==> instants@[j] == release_of(#[trigger] fv[j].yyyymmdd@, future_hour),
        {
            let date = future[i].yyyymmdd.as_str();
            let parsed = match parse_date(date, "%Y%m%d") {
                Some(d) => Some(d),
                None => parse_date(date, "%y%m%d"),
            };
            let rel = match parsed {
                Some(d) => tokyo_timestamp(d, future_hour),
                None => None,
            };
            instants.push(rel);
        }
        proof {
            lemma_kept_releases(fv, instants@, future_hour);
        }
        let releases = releases_from(future, &instants);
        RecruitData { tag_list, tag_name_order: order, main, future: releases }
    }

    /// The future operators with their release instants.
    pub fn future_releases(&self) -> (r: &Vec<FutureRelease>)
        ensures
            r@ == self.releases(),
    {
        &self.future
    }

    /// Data with the given tags and no operators.
    pub fn for_test(tag_list: TagList) -> (r: RecruitData)
        ensures
            r.tags() == tag_list,
            r.main_ops().len() == 0,
            r.releases().len() == 0,
    {
        let order = order_of(&tag_list);
        RecruitData { tag_list, tag_name_order: order, main: Vec::new(), future: Vec::new() }
    }

    /// Whether `name` is a tag of the tag list.
    pub fn is_known_tag(&self, name: &str) -> (r: bool)
        ensures
            r == tag_order(self.tags()).contains(name@),
    {
        proof {
            use_type_invariant(self);
        }
        list_contains(&self.tag_name_order, name)
    }

    /// The kind of the tag called `name`.
    pub fn tag_type(&self, name: &str) -> (r: TagType)
        ensures
            r == tag_type_spec(self.tags(), name@),
    {
        tag_type_of(&self.tag_list, name)
    }

    /// The known tags among `input`, each once, in definition order, classified.
    pub fn normalize_input(&self, input: &Vec<String>) -> (r: Vec<Tag>)
        ensures
            r@.map_values(|t: Tag| t@) == normalized_tags(self.tags(), views(input@)),
    {
        proof {
            use_type_invariant(self);
        }
        let ghost order = views(self.tag_name_order@);
        let ghost iv = views(input@);
        let mut names: Vec<String> = Vec::new();
        let mut tags: Vec<Tag> = Vec::new();
        let n = self.tag_name_order.len();
        assert(order.take(0) =~= Seq::<Seq<char>>::empty());
        for i in 0..n
            invariant
                n == self.tag_name_order@.len(),
                order == views(self.tag_name_order@),
                iv == views(input@),
                views(names@) == normalized_names(order.take(i as int), iv),
                tags@.map_values(|t: Tag| t@) == views(names@).map_values(
                    |x: Seq<char>| (x, tag_type_spec(self.tag_list, x)),
                ),
        {
            assert(order.take(i + 1).drop_last() =~= order.take(i as int));
            assert(order.take(i + 1).last() == self.tag_name_order@[i as int]@);
            let x = &self.tag_name_order[i];
            if list_contains(input, x.as_str()) && !list_contains(&names, x.as_str()) {
                let ghost nb = views(names@);
                let ghost tb = tags@.map_values(|t: Tag| t@);
                names.push(x.clone());
                let ty = self.tag_type(x.as_str());
                tags.push(Tag { name: x.clone(), tag_type: ty });
                assert(views(names@) =~= nb.push(x@));
                assert(tags@.map_values(|t: Tag| t@) =~= tb.push((x@, ty)));
                assert(views(names@).map_values(
                    |y: Seq<char>| (y, tag_type_spec(self.tag_list, y)),
                ) =~= nb.map_values(|y: Seq<char>| (y, tag_type_spec(self.tag_list, y))).push(
                    (x@, ty),
                ));
            }
        }
        assert(order.take(n as int) =~= order);
        tags
    }

    /// The known tags among `input`, each once, in definition order.
    pub fn normalize_names(&self, input: &Vec<String>) -> (r: Vec<String>)
        ensures
            views(r@) == normalized_names(tag_order(self.tags()), views(input@)),
    {
        let tags = self.normalize_input(input);
        let mut out: Vec<String> = Vec::new();
        let n = tags.len();
        let ghost want = normalized_names(tag_order(self.tag_list), views(input@));
        assert(tags@.map_values(|t: Tag| t@).len() == want.len());
        for i in 0..n
            invariant
                n == tags@.len(),
                n == want.len(),
                tags@.map_values(|t: Tag| t@) == normalized_tags(self.tag_list, views(input@)),
                want == normalized_names(tag_order(self.tag_list), views(input@)),
                views(out@) == want.take(i as int),
        {
            assert(tags@.map_values(|t: Tag| t@)[i as int] == tags@[i as int]@);
            assert(normalized_tags(self.tag_list, views(input@))[i as int] == (
                want[i as int],
                tag_type_spec(self.tag_list, want[i as int]),
            ));
            let ghost before = views(out@);
            out.push(tags[i].name.clone());
            assert(views(out@) =~= before.push(want[i as int]));
            assert(views(out@) =~= want.take(i + 1));
        }
        assert(want.take(n as int) =~= want);
        out
    }

    /// The result for one combination (see `item_for`).
    fn item_for_key(
        &self,
        key: &Vec<Tag>,
        is_global: bool,
        min_star: u8,
        pickup: Option<&Vec<String>>,
        now: i64,
    ) -> (r: Option<MatchItem>)
        ensures
            match r {
                Some(m) => item_for(
                    self.main@,
                    self.future@,
                    key@.map_values(|t: Tag| t@),
                    now,
                    is_global,
                    min_star,
                    opt_views(pickup),
                ) == Some(m@),
                None => item_for(
                    self.main@,
                    self.future@,
                    key@.map_values(|t: Tag| t@),
                    now,
                    is_global,
                    min_star,
                    opt_views(pickup),
                ) is None,
            },
    {
        let ghost kv = key@.map_values(|t: Tag| t@);
        let mut found: Vec<OperatorRef> = Vec::new();
        push_refs(&mut found, &self.main, key);
        let nf = self.future.len();
        let ghost fut = self.future@;
        assert(fut.take(0) =~= Seq::<FutureRelease>::empty());
        for i in 0..nf
            invariant
                nf == fut.len(),
                fut == self.future@,
                kv == key@.map_values(|t: Tag| t@),
                found@.map_values(|o: OperatorRef| o@) == refs_of(self.main@, kv) + future_refs(
                    fut.take(i as int),
                    kv,
                    now,
                    is_global,
                ),
        {
            assert(fut.take(i + 1).drop_last() =~= fut.take(i as int));
            assert(fut.take(i + 1).last() == fut[i as int]);
            let ghost before = found@.map_values(|o: OperatorRef| o@);
            let f = &self.future[i];
            if now >= f.release || !is_global {
                push_refs(&mut found, &f.operators, key);
            }
            assert(found@.map_values(|o: OperatorRef| o@) =~= refs_of(self.main@, kv) + future_refs(
                fut.take(i + 1),
                kv,
                now,
                is_global,
            ));
        }
        assert(fut.take(nf as int) =~= fut);
        let ghost unsorted = found@.map_values(|o: OperatorRef| o@);
        // stable sort by rarity
        let mut sorted: Vec<OperatorRef> = Vec::new();
        assert(unsorted.take(0) =~= Seq::<(Seq<char>, u8)>::empty());
        let ghost fv = found@;
        for x in it: found
            invariant
                it.seq() == fv,
                unsorted == fv.map_values(|o: OperatorRef| o@),
                sorted@.map_values(|o: OperatorRef| o@) == insertion_sort(
                    unsorted.take(it.index() as int),
                    by_stars(),
                ),
        {
            let ghost i = it.index();
            assert(unsorted.take(i + 1).drop_last() =~= unsorted.take(i as int));
            assert(unsorted.take(i + 1).last() == x@);
            insert_by_stars(&mut sorted, x);
        }
        let ghost i = unsorted.len();
        assert(unsorted.take(i as int) =~= unsorted);
        let ghost sat = sorted@.map_values(|o: OperatorRef| o@);
        assert(sat == satisfied_refs(self.main@, self.future@, kv, now, is_global));
        if sorted.len() == 0 {
            return None;
        }
        let ms = min_star_of(&sorted);
        assert(sorted@.map_values(|o: OperatorRef| o.stars) =~= sat.map_values(
            |r: (Seq<char>, u8)| r.1,
        ));
        assert(sorted@.map_values(|o: OperatorRef| o@.0) =~= sat.map_values(
            |r: (Seq<char>, u8)| r.0,
        ));
        let pickup_target: Vec<String> = match pickup {
            Some(pu) => pickup_targets_of(pu, &sorted),
            None => Vec::new(),
        };
        let contains_pickup = pickup_target.len() > 0;
        let keep = contains_pickup || (ms == 1 && min_star == 4) || ms >= min_star;
        if !keep {
            return None;
        }
        let mut combo: Vec<String> = Vec::new();
        let nk = key.len();
        for j in 0..nk
            invariant
                nk == key@.len(),
                kv == key@.map_values(|t: Tag| t@),
                views(combo@) == kv.map_values(|t: (Seq<char>, TagType)| t.0).take(j as int),
        {
            let ghost before = views(combo@);
            assert(kv[j as int] == key@[j as int]@);
            combo.push(key[j].name.clone());
            assert(views(combo@) =~= before.push(key@[j as int].name@));
            assert(views(combo@) =~= kv.map_values(|t: (Seq<char>, TagType)| t.0).take(j + 1));
        }
        assert(kv.map_values(|t: (Seq<char>, TagType)| t.0).take(nk as int) =~= kv.map_values(
            |t: (Seq<char>, TagType)| t.0,
        ));
        let mut star_set: BTreeSet<u8> = BTreeSet::new();
        let ns = sorted.len();
        let ghost stars = sat.map_values(|r: (Seq<char>, u8)| r.1);
        for j in 0..ns
            invariant
                ns == sorted@.len(),
                stars == sorted@.map_values(|o: OperatorRef| o.stars),
                star_set@ == stars.take(j as int).to_set(),
        {
            broadcast use vstd::seq_lib::group_seq_properties;

            set_insert(&mut star_set, sorted[j].stars);
            assert(stars.take(j + 1) =~= stars.take(j as int).push(stars[j as int]));
            assert(stars.take(j + 1).to_set() =~= stars.take(j as int).to_set().insert(
                stars[j as int],
            ));
        }
        assert(stars.take(ns as int) =~= stars);
        let item = MatchItem {
            combo,
            min_star: ms,
            operators: sorted,
            star_set,
            contains_pickup,
            pickup_target,
        };
        assert(item@.2 == sat);
        Some(item)
    }

    /// Every kept tag combination of the input at the instant `now` (seconds
    /// since the epoch): one to three of the known input tags, in
    /// lexicographic order of their definition positions.
    pub fn calculate_at(
        &self,
        input_tags: &Vec<String>,
        is_global: bool,
        min_star: u8,
        pickup: Option<&Vec<String>>,
        now: i64,
    ) -> (r: Vec<MatchItem>)
        ensures
            r@.map_values(|m: MatchItem| m@) == calculate_spec(
                *self,
                views(input_tags@),
                is_global,
                min_star,
                opt_views(pickup),
                now,
            ),
    {
        let tags = self.normalize_input(input_tags);
        let ghost tv = tags@.map_values(|t: Tag| t@);
        let ghost f = |key: Seq<(Seq<char>, TagType)>|
            item_for(self.main@, self.future@, key, now, is_global, min_star, opt_views(pickup));
        let mut result: Vec<MatchItem> = Vec::new();
        let ghost mut done: Seq<Seq<(Seq<char>, TagType)>> = seq![];
        let mut k: usize = 1;
        while k <= 3
            invariant
                1 <= k <= 4,
                tv == tags@.map_values(|t: Tag| t@),
                tv == normalized_tags(self.tag_list, views(input_tags@)),
                f == (|key: Seq<(Seq<char>, TagType)>|
                    item_for(self.main@, self.future@, key, now, is_global, min_star, opt_views(pickup))),
                done == if k == 1 {
                    seq![]
                } else if k == 2 {
                    keys_of_size(tv, 1)
                } else if k == 3 {
                    keys_of_size(tv, 1) + keys_of_size(tv, 2)
                } else {
                    combo_keys(tv)
                },
                result@.map_values(|m: MatchItem| m@) == done.filter_map(f),
            decreases 4 - k,
        {
            let combos = index_combinations(tags.len(), k);
            proof {
                lemma_combos_in_range(0, tags@.len() as nat, k as nat);
            }
            let ghost ks = keys_of_size(tv, k as nat);
            let ghost cv = combos@.map_values(|c: Vec<usize>| c@);
            let ghost done0 = done;
            let nc = combos.len();
            assert(ks.take(0) =~= Seq::<Seq<(Seq<char>, TagType)>>::empty());
            assert(done0 + ks.take(0) =~= done0);
            for j in 0..nc
                invariant
                    nc == combos@.len(),
                    cv == combos@.map_values(|c: Vec<usize>| c@),
                    cv == combos_from(0, tags@.len() as nat, k as nat),
                    forall|a: int, b: int|
                        0 <= a < cv.len() && 0 <= b < cv[a].len() ==> #[trigger] cv[a][b]
                            < tags@.len(),
                    tv == tags@.map_values(|t: Tag| t@),
                    ks == keys_of_size(tv, k as nat),
                    done == done0 + ks.take(j as int),
                    f == (|key: Seq<(Seq<char>, TagType)>|
                        item_for(self.main@, self.future@, key, now, is_global, min_star, opt_views(pickup))),
                    result@.map_values(|m: MatchItem| m@) == done.filter_map(f),
            {
                let c = &combos[j];
                assert(cv[j as int] == c@);
                let mut key: Vec<Tag> = Vec::new();
                let nkey = c.len();
                for t in 0..nkey
                    invariant
                        nkey == c@.len(),
                        c@ == cv[j as int],
                        forall|b: int| 0 <= b < c@.len() ==> #[trigger] c@[b] < tags@.len(),
                        tv == tags@.map_values(|t: Tag| t@),
                        key@.map_values(|t: Tag| t@) == c@.map_values(|i: usize| tv[i as int]).take(
                            t as int,
                        ),
                {
                    assert(cv[j as int][t as int] == c@[t as int]);
                    let idx = c[t];
                    let ghost before = key@.map_values(|t: Tag| t@);
                    assert(tv[idx as int] == tags@[idx as int]@);
                    key.push(clone_tag(&tags[idx]));
                    assert(key@.map_values(|t: Tag| t@) =~= before.push(tv[idx as int]));
                    assert(key@.map_values(|t: Tag| t@) =~= c@.map_values(|i: usize| tv[i as int]).take(
                        t + 1,
                    ));
                }
                assert(c@.map_values(|i: usize| tv[i as int]).take(nkey as int) =~= c@.map_values(
                    |i: usize| tv[i as int],
                ));
                let ghost kv = key@.map_values(|t: Tag| t@);
                assert(kv == ks[j as int]);
                let ghost before = result@.map_values(|m: MatchItem| m@);
                let item = self.item_for_key(&key, is_global, min_star, pickup, now);
                proof {
                    done = done.push(kv);
                }
                assert(done.drop_last() == done0 + ks.take(j as int));
                match item {
                    Some(m) => {
                        result.push(m);
                        assert(result@.map_values(|m: MatchItem| m@) =~= before.push(m@));
                    },
                    None => {},
                }
                assert(done =~= done0 + ks.take(j + 1));
            }
            assert(ks.take(nc as int) =~= ks);
            assert(done0 + ks == if k == 1 {
                keys_of_size(tv, 1)
            } else if k == 2 {
                keys_of_size(tv, 1) + keys_of_size(tv, 2)
            } else {
                combo_keys(tv)
            });
            k = k + 1;
        }
        result
    }

    /// Every kept tag combination of the input now (see `calculate_at`).
    pub fn calculate(
        &self,
        input_tags: &Vec<String>,
        is_global: bool,
        min_star: u8,
        pickup: Option<&Vec<String>>,
    ) -> (r: Vec<MatchItem>)
        ensures
            exists|now: i64|
                r@.map_values(|m: MatchItem| m@) == calculate_spec(
                    *self,
                    views(input_tags@),
                    is_global,
                    min_star,
                    opt_views(pickup),
                    now,
                ),
    {
        let now = now_timestamp();
        self.calculate_at(input_tags, is_global, min_star, pickup, now)
    }
}

/// Every tag name of the list in definition order.
fn order_of(tl: &TagList) -> (r: Vec<String>)
    ensures
        views(r@) == tag_order(*tl),
{
    let mut out = clone_strings(&tl.job_tags);
    let ghost a = views(out@);
    let p = clone_strings(&tl.position_tags);
    let e = clone_strings(&tl.elite_tags);
    let o = clone_strings(&tl.other_tags);
    append_strings(&mut out, &p);
    append_strings(&mut out, &e);
    append_strings(&mut out, &o);
    out
}

/// Appends copies of `more` to `out`.
fn append_strings(out: &mut Vec<String>, more: &Vec<String>)
    ensures
        views(final(out)@) == views(old(out)@) + views(more@),
{
    let ghost base = views(out@);
    let n = more.len();
    for i in 0..n
        invariant
            n == more@.len(),
            views(out@) == base + views(more@).take(i as int),
    {
        let ghost before = views(out@);
        out.push(more[i].clone());
        assert(views(out@) =~= before.push(more@[i as int]@));
        assert(views(more@).take(i + 1) =~= views(more@).take(i as int).push(more@[i as int]@));
        assert(views(out@) =~= base + views(more@).take(i + 1));
    }
    assert(views(more@).take(n as int) =~= views(more@));
}


/// The hour at which future operators become recruitable: the configured
/// hour when it is one of 0 to 23, else 16.
pub fn future_hour_or_default(configured: Option<u32>) -> (r: u32)
    ensures
        r == match configured {
            Some(h) => if h < 24 {
                h
            } else {
                16
            },
            None => 16,
        },
{
    match configured {
        Some(h) => if h < 24 {
            h
        } else {
            16
        },
        None => 16,
    }
}
} // verus!
