//! Rendering of recruitment results and splitting of long messages.
use vstd::prelude::*;
use std::collections::BTreeSet;
use crate::text::{
    chars_of, decimal, decimal_string, join, join_seq, list_contains, push_char, push_str,
    to_owned, views,
};
use crate::sorting::{
    insert_sorted, insertion_sort, lemma_insert_sorted_at, lemma_insertion_sort_props, sorted_by,
    total_preorder,
};
use crate::star_sets::set_contains;
use super::calc::{
    calculate_spec, guaranteed_rarity, lemma_result_guaranteed_rarity, MatchItem, MatchItemV, OperatorRef,
    RecruitData,
};

verus! {

// ---------------------------------------------------------------------------
// Specification
// ---------------------------------------------------------------------------

/// The elements of `s` below `k`, ascending.
pub open spec fn set_listing_below(s: Set<u8>, k: nat) -> Seq<u8>
    decreases k,
{
    if k == 0 {
        seq![]
    } else {
        set_listing_below(s, (k - 1) as nat) + if s.contains((k - 1) as u8) {
            seq![(k - 1) as u8]
        } else {
            seq![]
        }
    }
}

/// The elements of `s`, ascending.
pub open spec fn set_listing(s: Set<u8>) -> Seq<u8> {
    set_listing_below(s, 256)
}

/// The largest element of `s` below `k` (0 for none).
pub open spec fn set_max_below(s: Set<u8>, k: nat) -> u8
    decreases k,
{
    if k == 0 {
        0
    } else if s.contains((k - 1) as u8) {
        (k - 1) as u8
    } else {
        set_max_below(s, (k - 1) as nat)
    }
}

/// The largest element of `s` (0 for none).
pub open spec fn set_max(s: Set<u8>) -> u8 {
    set_max_below(s, 256)
}

/// The rarities, ascending, joined with commas.
pub open spec fn star_set_text(s: Set<u8>) -> Seq<char> {
    join_seq(set_listing(s).map_values(|k: u8| decimal(k as nat)), ","@)
}

/// The display order: pickups first, then higher guaranteed rarity, then
/// higher top rarity, then fewer operators, then more tags.
pub open spec fn item_le(a: MatchItemV, b: MatchItemV) -> bool {
    if a.4 != b.4 {
        a.4
    } else if a.1 != b.1 {
        a.1 > b.1
    } else if set_max(a.3) != set_max(b.3) {
        set_max(a.3) > set_max(b.3)
    } else if a.2.len() != b.2.len() {
        a.2.len() < b.2.len()
    } else {
        a.0.len() >= b.0.len()
    }
}

/// `item_le` as a closure.
pub open spec fn item_order() -> spec_fn(MatchItemV, MatchItemV) -> bool {
    |a: MatchItemV, b: MatchItemV| item_le(a, b)
}

/// The results in display order (a stable sort by `item_le`).
pub open spec fn sorted_items(items: Seq<MatchItemV>) -> Seq<MatchItemV> {
    insertion_sort(items, item_order())
}

/// `★{rarity}{name}`.
pub open spec fn op_text(o: (Seq<char>, u8)) -> Seq<char> {
    "★"@ + decimal(o.1 as nat) + o.0
}

/// One result as an embed chunk.
pub open spec fn display_chunk(m: MatchItemV) -> Seq<char> {
    join_seq(m.0, "+"@) + " -> ★"@ + decimal(m.1 as nat) + "```\n"@ + join_seq(
        m.2.map_values(|o: (Seq<char>, u8)| op_text(o)),
        ","@,
    ) + "```\n"@
}

/// The rarities of the contained pickups.
pub open spec fn pickup_stars(m: MatchItemV) -> Set<u8> {
    Set::new(
        |k: u8| exists|i: int| 0 <= i < m.2.len() && m.2[i].1 == k && m.5.contains(m.2[i].0),
    )
}

/// Picks the name of an operator of rarity `star` that is among `targets`.
pub open spec fn pick_pickup(targets: Seq<Seq<char>>, star: u8) -> spec_fn((Seq<char>, u8)) -> Option<Seq<char>> {
    |o: (Seq<char>, u8)|
        if targets.contains(o.0) && o.1 == star {
            Some(o.0)
        } else {
            None
        }
}

/// Picks the name of an operator of rarity `star`.
pub open spec fn pick_star(star: u8) -> spec_fn((Seq<char>, u8)) -> Option<Seq<char>> {
    |o: (Seq<char>, u8)|
        if o.1 == star {
            Some(o.0)
        } else {
            None
        }
}

/// The contained pickups of one rarity, with a note of how many other
/// operators of that rarity the combination also gives.
pub open spec fn pickup_group(m: MatchItemV, star: u8) -> Seq<char> {
    let pu_ops = m.2.filter_map(pick_pickup(m.5, star));
    let all = m.2.filter_map(pick_star(star));
    let other = all.len() - pu_ops.len();
    join_seq(pu_ops, ","@) + if other > 0 {
        "(他★"@ + decimal(star as nat) + "が"@ + decimal(other as nat) + "人)"@
    } else {
        seq![]
    }
}

/// One result as a line block of the text reply.
pub open spec fn ai_chunk(m: MatchItemV) -> Seq<char> {
    let head = join_seq(m.0, "+"@) + " ->★"@ + star_set_text(m.3);
    let body = if m.1 >= 5 || m.1 == 1 {
        "\n"@ + join_seq(m.2.map_values(|o: (Seq<char>, u8)| o.0), ", "@)
    } else if m.4 {
        "\n"@ + join_seq(
            set_listing(pickup_stars(m)).map_values(|s: u8| pickup_group(m, s)),
            ","@,
        )
    } else {
        seq![]
    };
    head + body + "\n"@
}

/// The parts one after another.
pub open spec fn concat_all(parts: Seq<Seq<char>>) -> Seq<char>
    decreases parts.len(),
{
    if parts.len() == 0 {
        seq![]
    } else {
        concat_all(parts.drop_last()) + parts.last()
    }
}

/// The title of a recruitment reply.
pub open spec fn title_spec(names: Seq<Seq<char>>, is_global: bool, show_tag_loss: bool) -> Seq<char> {
    join_seq(names, " "@) + (if !is_global {
        " (大陸版)"@
    } else {
        seq![]
    }) + (if show_tag_loss && names.len() < 5 {
        "(タグ不足)"@
    } else {
        seq![]
    }) + (if show_tag_loss && names.len() > 5 {
        "(タグ過多)"@
    } else {
        seq![]
    })
}

/// The last position `p` in `lo..hi` with `s[p] == c`.
pub open spec fn last_index_of(s: Seq<char>, c: char, lo: int, hi: int) -> Option<int>
    decreases hi - lo,
{
    if hi <= lo {
        None
    } else if s[hi - 1] == c {
        Some(hi - 1)
    } else {
        last_index_of(s, c, lo, hi - 1)
    }
}

/// Where the piece starting at `start` ends: before the last newline, else
/// the last space, of the next `limit` characters when that is past
/// `start`; else after `limit` characters (or at the end).
pub open spec fn split_point(s: Seq<char>, start: int, limit: int) -> int {
    let n = s.len() as int;
    let end = if n < start + limit {
        n
    } else {
        start + limit
    };
    if end < n {
        let sp = match last_index_of(s, '\n', start, end) {
            Some(p) => Some(p),
            None => last_index_of(s, ' ', start, end),
        };
        match sp {
            Some(p) => if p > start {
                p
            } else {
                end
            },
            None => end,
        }
    } else {
        end
    }
}

/// `last_index_of` finds a position in the range it searches.
pub proof fn lemma_last_index_in_range(s: Seq<char>, c: char, lo: int, hi: int)
    ensures
        match last_index_of(s, c, lo, hi) {
            Some(p) => lo <= p < hi && s[p] == c,
            None => true,
        },
    decreases hi - lo,
{
    if hi > lo && s[hi - 1] != c {
        lemma_last_index_in_range(s, c, lo, hi - 1);
    }
}

/// A piece that starts inside the text ends past its start and inside the
/// text.
pub proof fn lemma_split_point_bounds(s: Seq<char>, start: int, limit: int)
    requires
        0 <= start < s.len(),
        limit >= 0,
    ensures
        start <= split_point(s, start, limit) <= s.len(),
        limit > 0 ==> start < split_point(s, start, limit),
        split_point(s, start, limit) <= start + limit,
{
    let n = s.len() as int;
    let end = if n < start + limit {
        n
    } else {
        start + limit
    };
    lemma_last_index_in_range(s, '\n', start, end);
    lemma_last_index_in_range(s, ' ', start, end);
}

/// The pieces of `s` from `start` on, each at most `limit` characters; the
/// newline or space a piece ends before is dropped. With `limit` 0 each
/// piece is empty and ends before a newline or space.
pub open spec fn chunks_from(s: Seq<char>, start: int, limit: int) -> Seq<Seq<char>>
    recommends
        limit > 0 || only_separators(s),
    decreases s.len() - start,
{
    if start >= s.len() || limit < 0 || start < 0 {
        seq![]
    } else {
        let split = split_point(s, start, limit);
        proof {
            lemma_split_point_bounds(s, start, limit);
        }
        let next = if split < s.len() && (s[split] == '\n' || s[split] == ' ') {
            split + 1
        } else {
            split
        };
        if next <= start {
            seq![]
        } else {
            seq![s.subrange(start, split)] + chunks_from(s, next, limit)
        }
    }
}

/// Every character of `s` is a newline or a space.
pub open spec fn only_separators(s: Seq<char>) -> bool {
    forall|i: int| 0 <= i < s.len() ==> s[i] == '\n' || s[i] == ' '
}

/// `s` split into pieces of at most `limit` characters, preferring newlines
/// and spaces; a text that fits is kept whole.
pub open spec fn chunk_text_spec(s: Seq<char>, limit: int) -> Seq<Seq<char>> {
    if s.len() <= limit {
        seq![s]
    } else {
        chunks_from(s, 0, limit)
    }
}

/// The messages packed into as few chunks of at most `max` characters as
/// greedy appending allows; a message that does not fit is split.
pub open spec fn arrange_spec(msgs: Seq<Seq<char>>, max: int) -> Seq<Seq<char>>
    decreases msgs.len(),
{
    if msgs.len() == 0 {
        seq![]
    } else {
        let prev = arrange_spec(msgs.drop_last(), max);
        let item = msgs.last();
        if prev.len() == 0 {
            seq![item]
        } else if prev.last().len() + item.len() <= max {
            prev.update(prev.len() - 1, prev.last() + item)
        } else {
            prev + chunk_text_spec(item, max)
        }
    }
}

/// The display order compares by one key after another, so it is a total
/// preorder.
pub proof fn lemma_item_order_total_preorder()
    ensures
        total_preorder(item_order()),
{
    assert forall|a: MatchItemV, b: MatchItemV| #[trigger]
        (item_order())(a, b) || (item_order())(b, a) by {}
    assert forall|a: MatchItemV, b: MatchItemV, c: MatchItemV| #[trigger]
        (item_order())(a, b) && #[trigger] (item_order())(b, c) implies (item_order())(a, c) by {}
}

/// The results are shown in display order, each result exactly as often as
/// it was found.
pub proof fn lemma_display_order(items: Seq<MatchItemV>)
    ensures
        sorted_by(sorted_items(items), item_order()),
        sorted_items(items).to_multiset() == items.to_multiset(),
{
    lemma_item_order_total_preorder();
    lemma_insertion_sort_props(items, item_order());
}

/// The embed chunk of `m` opens with its tags joined by "+", then " -> ★"
/// and a rarity that its operators guarantee.
pub open spec fn headline_shows_guarantee(m: MatchItemV) -> bool {
    exists|h: u8, rest: Seq<char>|
        guaranteed_rarity(m.2, h) && display_chunk(m) == join_seq(m.0, "+"@) + " -> ★"@ + decimal(h as nat)
            + "```\n"@ + rest
}

/// Each result of a recruitment calculation is shown as an embed chunk that
/// opens with its tags joined by "+", then " -> ★" and the rarity the
/// result guarantees: that of its operators, the lowest of at least 3
/// stars, or the highest when all are below 3 stars.
pub proof fn lemma_chunk_headline(
    data: RecruitData,
    input: Seq<Seq<char>>,
    is_global: bool,
    min_star: u8,
    pickup: Option<Seq<Seq<char>>>,
    now: i64,
)
    ensures
        ({
            let r = calculate_spec(data, input, is_global, min_star, pickup, now);
            forall|k: int| 0 <= k < r.len() ==> headline_shows_guarantee(#[trigger] r[k])
        }),
{
    let r = calculate_spec(data, input, is_global, min_star, pickup, now);
    lemma_result_guaranteed_rarity(data, input, is_global, min_star, pickup, now);
    assert forall|k: int| 0 <= k < r.len() implies headline_shows_guarantee(#[trigger] r[k]) by {
        let m = r[k];
        assert(guaranteed_rarity(m.2, m.1));
        let rest = join_seq(m.2.map_values(|o: (Seq<char>, u8)| op_text(o)), ","@) + "```\n"@;
        assert(display_chunk(m) =~= join_seq(m.0, "+"@) + " -> ★"@ + decimal(m.1 as nat) + "```\n"@ + rest);
    }
}

/// Every piece from `start` on has at most `limit` characters.
pub proof fn lemma_chunks_bounded(s: Seq<char>, start: int, limit: int)
    requires
        limit > 0,
    ensures
        forall|i: int| 0 <= i < chunks_from(s, start, limit).len() ==> (#[trigger] chunks_from(s, start, limit)[i]).len() <= limit,
    decreases s.len() - start,
{
    if start >= s.len() || start < 0 {
    } else {
        lemma_split_point_bounds(s, start, limit);
        let split = split_point(s, start, limit);
        let next = if split < s.len() && (s[split] == '\n' || s[split] == ' ') {
            split + 1
        } else {
            split
        };
        lemma_chunks_bounded(s, next, limit);
        let rest = chunks_from(s, next, limit);
        let all = chunks_from(s, start, limit);
        assert(all == seq![s.subrange(start, split)] + rest);
        assert forall|i: int| 0 <= i < all.len() implies (#[trigger] all[i]).len() <= limit by {
            if i > 0 {
                assert(all[i] == rest[i - 1]);
            }
        }
    }
}

/// `chunk_text` gives pieces of at most `limit` characters.
pub proof fn lemma_chunk_text_bounded(s: Seq<char>, limit: int)
    requires
        limit > 0,
    ensures
        forall|i: int| 0 <= i < chunk_text_spec(s, limit).len() ==> (#[trigger] chunk_text_spec(s, limit)[i]).len() <= limit,
{
    lemma_chunks_bounded(s, 0, limit);
}

// ---------------------------------------------------------------------------
// Implementation
// ---------------------------------------------------------------------------

/// The largest rarity in the set (0 for none).
fn max_star(s: &BTreeSet<u8>) -> (r: u8)
    ensures
        r == set_max(s@),
{
    let mut k: u16 = 256;
    while k > 0
        invariant
            k <= 256,
            set_max(s@) == set_max_below(s@, k as nat),
        decreases k,
    {
        let c = (k - 1) as u8;
        if set_contains(s, c) {
            return c;
        }
        k = k - 1;
    }
    0
}

/// Whether `a` may stay before `b` in display order.
fn item_le_exec(a: &MatchItem, b: &MatchItem) -> (r: bool)
    ensures
        r == item_le(a@, b@),
{
    if a.contains_pickup != b.contains_pickup {
        a.contains_pickup
    } else if a.min_star != b.min_star {
        a.min_star > b.min_star
    } else {
        let ma = max_star(&a.star_set);
        let mb = max_star(&b.star_set);
        if ma != mb {
            ma > mb
        } else if a.operators.len() != b.operators.len() {
            a.operators.len() < b.operators.len()
        } else {
            a.combo.len() >= b.combo.len()
        }
    }
}

/// Inserts `x` after the last result that may stay before it.
fn insert_item(v: &mut Vec<MatchItem>, x: MatchItem)
    ensures
        final(v)@.map_values(|m: MatchItem| m@) == insert_sorted(
            old(v)@.map_values(|m: MatchItem| m@),
            x@,
            item_order(),
        ),
{
    let ghost s = v@.map_values(|m: MatchItem| m@);
    let mut k = v.len();
    while k > 0 && !item_le_exec(&v[k - 1], &x)
        invariant
            k <= v@.len(),
            s == v@.map_values(|m: MatchItem| m@),
            forall|j: int| k <= j < s.len() ==> !(item_order())(#[trigger] s[j], x@),
        decreases k,
    {
        k = k - 1;
    }
    proof {
        lemma_insert_sorted_at(s, x@, item_order(), k as int);
    }
    let ghost xv = x@;
    v.insert(k, x);
    assert(v@.map_values(|m: MatchItem| m@) =~= s.take(k as int).push(xv) + s.skip(k as int));
}

/// The results in display order (see `item_le`).
pub fn sort_items(items: Vec<MatchItem>) -> (r: Vec<MatchItem>)
    ensures
        r@.map_values(|m: MatchItem| m@) == sorted_items(items@.map_values(|m: MatchItem| m@)),
{
    let ghost iv = items@;
    let ghost unsorted = iv.map_values(|m: MatchItem| m@);
    let mut sorted: Vec<MatchItem> = Vec::new();
    assert(unsorted.take(0) =~= Seq::<MatchItemV>::empty());
    for x in it: items
        invariant
            it.seq() == iv,
            unsorted == iv.map_values(|m: MatchItem| m@),
            sorted@.map_values(|m: MatchItem| m@) == insertion_sort(
                unsorted.take(it.index() as int),
                item_order(),
            ),
    {
        let ghost i = it.index();
        assert(unsorted.take(i + 1).drop_last() =~= unsorted.take(i as int));
        assert(unsorted.take(i + 1).last() == x@);
        insert_item(&mut sorted, x);
    }
    assert(unsorted.take(unsorted.len() as int) =~= unsorted);
    sorted
}

/// The rarities of the set, ascending, joined with commas.
pub fn star_set_str(set: &BTreeSet<u8>) -> (r: String)
    ensures
        r@ == star_set_text(set@),
{
    let mut parts: Vec<String> = Vec::new();
    let mut k: u16 = 0;
    while k < 256
        invariant
            k <= 256,
            views(parts@) == set_listing_below(set@, k as nat).map_values(|x: u8| decimal(x as nat)),
        decreases 256 - k,
    {
        let c = k as u8;
        let ghost before = views(parts@);
        if set_contains(set, c) {
            parts.push(decimal_string(c as u64));
            assert(views(parts@) =~= before.push(decimal(c as nat)));
        }
        assert(set_listing_below(set@, (k + 1) as nat).map_values(|x: u8| decimal(x as nat))
            =~= views(parts@));
        k = k + 1;
    }
    join(&parts, ",")
}

/// The strings of `v` joined with `sep`.
fn names_joined(ops: &Vec<OperatorRef>, sep: &str) -> (r: String)
    ensures
        r@ == join_seq(ops@.map_values(|o: OperatorRef| o@).map_values(|o: (Seq<char>, u8)| o.0), sep@),
{
    let mut names: Vec<String> = Vec::new();
    let n = ops.len();
    let ghost want = ops@.map_values(|o: OperatorRef| o@).map_values(|o: (Seq<char>, u8)| o.0);
    for i in 0..n
        invariant
            n == ops@.len(),
            want == ops@.map_values(|o: OperatorRef| o@).map_values(|o: (Seq<char>, u8)| o.0),
            views(names@) == want.take(i as int),
    {
        let ghost before = views(names@);
        assert(want[i as int] == ops@[i as int].name@);
        names.push(ops[i].name.clone());
        assert(views(names@) =~= before.push(want[i as int]));
        assert(views(names@) =~= want.take(i + 1));
    }
    assert(want.take(n as int) =~= want);
    join(&names, sep)
}

/// One result as an embed chunk.
fn display_chunk_of(it: &MatchItem) -> (r: String)
    ensures
        r@ == display_chunk(it@),
{
    let mut out = join(&it.combo, "+");
    push_str(&mut out, " -> ★");
    let ms = decimal_string(it.min_star as u64);
    push_str(&mut out, ms.as_str());
    push_str(&mut out, "```\n");
    let mut parts: Vec<String> = Vec::new();
    let n = it.operators.len();
    let ghost ov = it.operators@.map_values(|o: OperatorRef| o@);
    let ghost want = ov.map_values(|o: (Seq<char>, u8)| op_text(o));
    for i in 0..n
        invariant
            n == it.operators@.len(),
            ov == it.operators@.map_values(|o: OperatorRef| o@),
            want == ov.map_values(|o: (Seq<char>, u8)| op_text(o)),
            views(parts@) == want.take(i as int),
    {
        let o = &it.operators[i];
        let mut s = String::new();
        push_str(&mut s, "★");
        let d = decimal_string(o.stars as u64);
        push_str(&mut s, d.as_str());
        push_str(&mut s, o.name.as_str());
        let ghost before = views(parts@);
        assert(want[i as int] == op_text(o@));
        assert(s@ == op_text(o@));
        parts.push(s);
        assert(views(parts@) =~= before.push(want[i as int]));
        assert(views(parts@) =~= want.take(i + 1));
    }
    assert(want.take(n as int) =~= want);
    let body = join(&parts, ",");
    push_str(&mut out, body.as_str());
    push_str(&mut out, "```\n");
    out
}

/// Each result as an embed chunk, in display order.
pub fn display_chunks(items: Vec<MatchItem>) -> (r: Vec<String>)
    ensures
        views(r@) == sorted_items(items@.map_values(|m: MatchItem| m@)).map_values(
            |m: MatchItemV| display_chunk(m),
        ),
{
    let sorted = sort_items(items);
    let ghost sv = sorted@.map_values(|m: MatchItem| m@);
    let mut chunks: Vec<String> = Vec::new();
    let n = sorted.len();
    for i in 0..n
        invariant
            n == sorted@.len(),
            sv == sorted@.map_values(|m: MatchItem| m@),
            views(chunks@) == sv.map_values(|m: MatchItemV| display_chunk(m)).take(i as int),
    {
        let c = display_chunk_of(&sorted[i]);
        let ghost before = views(chunks@);
        assert(sv[i as int] == sorted@[i as int]@);
        chunks.push(c);
        assert(views(chunks@) =~= before.push(display_chunk(sv[i as int])));
        assert(views(chunks@) =~= sv.map_values(|m: MatchItemV| display_chunk(m)).take(i + 1));
    }
    assert(sv.map_values(|m: MatchItemV| display_chunk(m)).take(n as int) =~= sv.map_values(
        |m: MatchItemV| display_chunk(m),
    ));
    chunks
}

/// The contained pickups of rarity `star`, with the count of the others.
fn pickup_group_of(it: &MatchItem, star: u8) -> (r: String)
    ensures
        r@ == pickup_group(it@, star),
{
    let ghost m = it@;
    let ghost ops = m.2;
    let mut pu: Vec<String> = Vec::new();
    let mut all: usize = 0;
    let n = it.operators.len();
    assert(ops.take(0) =~= Seq::<(Seq<char>, u8)>::empty());
    for i in 0..n
        invariant
            n == it.operators@.len(),
            m == it@,
            ops == m.2,
            views(pu@) == ops.take(i as int).filter_map(pick_pickup(m.5, star)),
            all == ops.take(i as int).filter_map(pick_star(star)).len(),
            pu@.len() <= all <= i,
    {
        assert(ops.take(i + 1).drop_last() =~= ops.take(i as int));
        assert(ops.take(i + 1).last() == it.operators@[i as int]@);
        let o = &it.operators[i];
        let ghost ov = o@;
        let ghost pre = ops.take(i as int);
        assert(ops.take(i + 1).filter_map(pick_pickup(m.5, star)) == pre.filter_map(pick_pickup(m.5, star)) + match pick_pickup(m.5, star)(ov) {
            Some(x) => seq![x],
            None => Seq::<Seq<char>>::empty(),
        });
        assert(ops.take(i + 1).filter_map(pick_star(star)) == pre.filter_map(pick_star(star)) + match pick_star(star)(ov) {
            Some(x) => seq![x],
            None => Seq::<Seq<char>>::empty(),
        });
        if o.stars == star {
            assert(pick_star(star)(ov) == Some(ov.0));
            all = all + 1;
            if list_contains(&it.pickup_target, o.name.as_str()) {
                let ghost before = views(pu@);
                pu.push(o.name.clone());
                assert(views(pu@) =~= before.push(o.name@));
            } else {
                assert(pick_pickup(m.5, star)(ov) is None);
            }
        } else {
            assert(pick_star(star)(ov) is None);
            assert(pick_pickup(m.5, star)(ov) is None);
        }
        assert(views(pu@) =~= ops.take(i + 1).filter_map(pick_pickup(m.5, star)));
        assert(all == ops.take(i + 1).filter_map(pick_star(star)).len());
    }
    assert(ops.take(n as int) =~= ops);
    let mut s = join(&pu, ",");
    let other = all - pu.len();
    if other > 0 {
        push_str(&mut s, "(他★");
        let d = decimal_string(star as u64);
        push_str(&mut s, d.as_str());
        push_str(&mut s, "が");
        let d2 = decimal_string(other as u64);
        push_str(&mut s, d2.as_str());
        push_str(&mut s, "人)");
    }
    s
}

/// Whether some operator of rarity `star` is a contained pickup.
fn has_pickup_of(it: &MatchItem, star: u8) -> (r: bool)
    ensures
        r == pickup_stars(it@).contains(star),
{
    let n = it.operators.len();
    for i in 0..n
        invariant
            n == it.operators@.len(),
            forall|j: int|
                0 <= j < i ==> !(it@.2[j].1 == star && it@.5.contains(it@.2[j].0)),
    {
        assert(it@.2[i as int] == it.operators@[i as int]@);
        if it.operators[i].stars == star && list_contains(
            &it.pickup_target,
            it.operators[i].name.as_str(),
        ) {
            return true;
        }
    }
    false
}

/// One result as a block of the text reply.
fn ai_chunk_of(it: &MatchItem) -> (r: String)
    ensures
        r@ == ai_chunk(it@),
{
    let mut out = join(&it.combo, "+");
    push_str(&mut out, " ->★");
    let ss = star_set_str(&it.star_set);
    push_str(&mut out, ss.as_str());
    if it.min_star >= 5 || it.min_star == 1 {
        push_str(&mut out, "\n");
        let names = names_joined(&it.operators, ", ");
        push_str(&mut out, names.as_str());
    } else if it.contains_pickup {
        let ghost m = it@;
        let mut groups: Vec<String> = Vec::new();
        let mut k: u16 = 0;
        while k < 256
            invariant
                k <= 256,
                m == it@,
                views(groups@) == set_listing_below(pickup_stars(m), k as nat).map_values(
                    |s: u8| pickup_group(m, s),
                ),
            decreases 256 - k,
        {
            let c = k as u8;
            let ghost before = views(groups@);
            if has_pickup_of(it, c) {
                let g = pickup_group_of(it, c);
                groups.push(g);
                assert(views(groups@) =~= before.push(pickup_group(m, c)));
            }
            assert(set_listing_below(pickup_stars(m), (k + 1) as nat).map_values(
                |s: u8| pickup_group(m, s),
            ) =~= views(groups@));
            k = k + 1;
        }
        push_str(&mut out, "\n");
        let body = join(&groups, ",");
        push_str(&mut out, body.as_str());
    }
    push_str(&mut out, "\n");
    out
}

/// The text reply: each result as a block, in display order.
pub fn response_for_ai(items: Vec<MatchItem>) -> (r: String)
    ensures
        r@ == concat_all(
            sorted_items(items@.map_values(|m: MatchItem| m@)).map_values(|m: MatchItemV| ai_chunk(m)),
        ),
{
    let sorted = sort_items(items);
    let ghost sv = sorted@.map_values(|m: MatchItem| m@);
    let ghost cs = sv.map_values(|m: MatchItemV| ai_chunk(m));
    let mut out = String::new();
    let n = sorted.len();
    assert(cs.take(0) =~= Seq::<Seq<char>>::empty());
    for i in 0..n
        invariant
            n == sorted@.len(),
            sv == sorted@.map_values(|m: MatchItem| m@),
            cs == sv.map_values(|m: MatchItemV| ai_chunk(m)),
            out@ == concat_all(cs.take(i as int)),
    {
        let c = ai_chunk_of(&sorted[i]);
        push_str(&mut out, c.as_str());
        assert(cs.take(i + 1).drop_last() =~= cs.take(i as int));
    }
    assert(cs.take(n as int) =~= cs);
    out
}

/// The title of a reply: the tags separated by spaces, marked when the
/// mainland server is meant and, if asked, when there are fewer or more than
/// five tags.
pub fn make_title(sorted_input: &Vec<String>, is_global: bool, show_tag_loss: bool) -> (r: String)
    ensures
        r@ == title_spec(views(sorted_input@), is_global, show_tag_loss),
{
    let mut title = join(sorted_input, " ");
    if !is_global {
        push_str(&mut title, " (大陸版)");
    }
    if show_tag_loss && sorted_input.len() < 5 {
        push_str(&mut title, "(タグ不足)");
    }
    if show_tag_loss && sorted_input.len() > 5 {
        push_str(&mut title, "(タグ過多)");
    }
    title
}


/// The last position in `lo..hi` holding `c`.
fn last_index(cs: &Vec<char>, c: char, lo: usize, hi: usize) -> (r: Option<usize>)
    requires
        lo <= hi <= cs@.len(),
    ensures
        r matches Some(p) ==> last_index_of(cs@, c, lo as int, hi as int) == Some(p as int),
        r is None ==> last_index_of(cs@, c, lo as int, hi as int) is None,
{
    let mut k = hi;
    while k > lo
        invariant
            lo <= k <= hi <= cs@.len(),
            last_index_of(cs@, c, lo as int, hi as int) == last_index_of(cs@, c, lo as int, k as int),
        decreases k,
    {
        if cs[k - 1] == c {
            return Some(k - 1);
        }
        k = k - 1;
    }
    None
}

/// The characters of `cs` in `lo..hi` as a string.
pub(crate) fn chars_between(cs: &Vec<char>, lo: usize, hi: usize) -> (r: String)
    requires
        lo <= hi <= cs@.len(),
    ensures
        r@ == cs@.subrange(lo as int, hi as int),
{
    let mut out = String::new();
    let mut k = lo;
    while k < hi
        invariant
            lo <= k <= hi <= cs@.len(),
            out@ == cs@.subrange(lo as int, k as int),
        decreases hi - k,
    {
        push_char(&mut out, cs[k]);
        assert(cs@.subrange(lo as int, k + 1) =~= cs@.subrange(lo as int, k as int).push(cs@[k as int]));
        k = k + 1;
    }
    out
}

/// Splits a text longer than `limit` characters into pieces of at most
/// `limit` characters, ending each piece before its last newline (else its
/// last space) where there is one; a text that fits comes back whole.
pub fn chunk_text(text: &str, limit: usize) -> (r: Vec<String>)
    requires
        limit > 0 || only_separators(text@),
    ensures
        views(r@) == chunk_text_spec(text@, limit as int),
{
    let chars = chars_of(text);
    let n = chars.len();
    if n <= limit {
        let mut whole: Vec<String> = Vec::new();
        whole.push(to_owned(text));
        assert(views(whole@) =~= seq![text@]);
        return whole;
    }
    let ghost s = text@;
    let mut chunks: Vec<String> = Vec::new();
    let mut start: usize = 0;
    assert(views(chunks@) + chunks_from(s, 0, limit as int) =~= chunks_from(s, 0, limit as int));
    while start < n
        invariant
            n == chars@.len(),
            chars@ == s,
            s == text@,
            limit > 0 || only_separators(s),
            start <= n,
            views(chunks@) + chunks_from(s, start as int, limit as int) == chunks_from(s, 0, limit as int),
        decreases n - start,
    {
        let end = if n - start < limit {
            n
        } else {
            start + limit
        };
        let split_pos = if end < n {
            let nl = last_index(&chars, '\n', start, end);
            let sp = match nl {
                Some(p) => Some(p),
                None => last_index(&chars, ' ', start, end),
            };
            match sp {
                Some(p) => if p > start {
                    p
                } else {
                    end
                },
                None => end,
            }
        } else {
            end
        };
        proof {
            lemma_split_point_bounds(s, start as int, limit as int);
        }
        assert(split_pos == split_point(s, start as int, limit as int));
        let piece = chars_between(&chars, start, split_pos);
        let ghost before = views(chunks@);
        chunks.push(piece);
        assert(views(chunks@) =~= before + seq![s.subrange(start as int, split_pos as int)]);
        let ghost old_start = start;
        start = split_pos;
        if start < n && (chars[start] == '\n' || chars[start] == ' ') {
            start = start + 1;
        }
        assert(chunks_from(s, old_start as int, limit as int) == seq![
            s.subrange(old_start as int, split_pos as int),
        ] + chunks_from(s, start as int, limit as int));
        assert(views(chunks@) + chunks_from(s, start as int, limit as int) =~= before + chunks_from(
            s,
            old_start as int,
            limit as int,
        ));
    }
    assert(views(chunks@) =~= views(chunks@) + chunks_from(s, start as int, limit as int));
    chunks
}

/// Packs the messages into chunks of at most `max_length` characters:
/// each message is appended to the last chunk where it fits, and otherwise
/// starts new chunks, split by `chunk_text` (the first message always
/// starts a chunk as it is).
pub fn arrangement_chunks(msg_list: &[String], max_length: usize) -> (r: Vec<String>)
    requires
        max_length > 0 || forall|i: int| 1 <= i < msg_list@.len() ==> only_separators(#[trigger] msg_list@[i]@),
    ensures
        views(r@) == arrange_spec(views(msg_list@), max_length as int),
{
    let ghost mv = views(msg_list@);
    let mut chunks: Vec<String> = Vec::new();
    let n = msg_list.len();
    assert(mv.take(0) =~= Seq::<Seq<char>>::empty());
    for i in 0..n
        invariant
            n == msg_list@.len(),
            mv == views(msg_list@),
            max_length > 0 || forall|j: int| 1 <= j < msg_list@.len() ==> only_separators(#[trigger] msg_list@[j]@),
            views(chunks@) == arrange_spec(mv.take(i as int), max_length as int),
    {
        let item = &msg_list[i];
        assert(mv.take(i + 1).drop_last() =~= mv.take(i as int));
        assert(mv.take(i + 1).last() == item@);
        let ghost before = views(chunks@);
        if chunks.len() == 0 {
            chunks.push(item.clone());
            assert(views(chunks@) =~= seq![item@]);
        } else {
            let k = chunks.len() - 1;
            let last_len = chars_of(chunks[k].as_str()).len();
            let item_len = chars_of(item.as_str()).len();
            if item_len <= max_length && last_len <= max_length - item_len {
                let mut last = chunks.pop().unwrap();
                assert(last@ == before.last());
                push_str(&mut last, item.as_str());
                chunks.push(last);
                assert(views(chunks@) =~= before.update(before.len() - 1, before.last() + item@));
            } else {
                let mut safe = chunk_text(item.as_str(), max_length);
                let ghost sv = views(safe@);
                chunks.append(&mut safe);
                assert(views(chunks@) =~= before + sv);
            }
        }
    }
    assert(mv.take(n as int) =~= mv);
    chunks
}

} // verus!
