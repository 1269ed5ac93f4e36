//! The layout of the mastery-cost statistics of a rarity: which places of
//! the ranking (heaviest first) are shown, and with which ranks. The values
//! themselves are computed by the caller.
use vstd::prelude::*;
use crate::text::decimal;
use super::checks::no_master_data_error;

verus! {

/// Which places of a ranking of `skill_nums` skills are shown. Each place
/// is given as (rank, position), the rank counted from 1.
#[derive(Debug, PartialEq, Eq)]
pub enum MasterStatsLayout {
    /// The recent operators' skills only, each with its rank among all.
    Recent { star: u32, skill_nums: usize, entries: Vec<(usize, usize)> },
    /// The whole ranking: the heaviest and lightest skill, and the ten
    /// heaviest and ten lightest places.
    Full {
        star: u32,
        skill_nums: usize,
        heaviest: usize,
        lightest: usize,
        top_heaviest: Vec<(usize, usize)>,
        top_lightest: Vec<(usize, usize)>,
    },
}

/// A layout as the specifications see it.
pub enum MasterStatsLayoutV {
    Recent { star: u32, skill_nums: usize, entries: Seq<(usize, usize)> },
    Full {
        star: u32,
        skill_nums: usize,
        heaviest: usize,
        lightest: usize,
        top_heaviest: Seq<(usize, usize)>,
        top_lightest: Seq<(usize, usize)>,
    },
}

impl View for MasterStatsLayout {
    type V = MasterStatsLayoutV;

    open spec fn view(&self) -> MasterStatsLayoutV {
        match self {
            MasterStatsLayout::Recent { star, skill_nums, entries } => MasterStatsLayoutV::Recent {
                star: *star,
                skill_nums: *skill_nums,
                entries: entries@,
            },
            MasterStatsLayout::Full { star, skill_nums, heaviest, lightest, top_heaviest, top_lightest } =>
                MasterStatsLayoutV::Full {
                star: *star,
                skill_nums: *skill_nums,
                heaviest: *heaviest,
                lightest: *lightest,
                top_heaviest: top_heaviest@,
                top_lightest: top_lightest@,
            },
        }
    }
}

/// The places of the recent skills, in ranking order, with their ranks.
pub open spec fn recent_places(is_recent: Seq<bool>) -> Seq<(usize, usize)>
    decreases is_recent.len(),
{
    if is_recent.len() == 0 {
        seq![]
    } else {
        let p = recent_places(is_recent.drop_last());
        let i = is_recent.len() - 1;
        if is_recent.last() {
            p.push(((i + 1) as usize, i as usize))
        } else {
            p
        }
    }
}

/// The places `lo..hi` with their ranks.
pub open spec fn places(lo: int, hi: int) -> Seq<(usize, usize)> {
    Seq::new((hi - lo) as nat, |k: int| ((lo + k + 1) as usize, (lo + k) as usize))
}

/// The layout: with `only_recent`, the recent skills' places; otherwise,
/// for a non-empty ranking, the first and last places and the first and
/// last ten; an error when the ranking is empty.
pub open spec fn master_stats_spec(star: u32, is_recent: Seq<bool>, only_recent: bool) -> Result<
    MasterStatsLayoutV,
    Seq<char>,
> {
    let n = is_recent.len();
    if only_recent {
        Ok(MasterStatsLayoutV::Recent { star, skill_nums: n as usize, entries: recent_places(is_recent) })
    } else if n == 0 {
        Err("星"@ + decimal(star as nat) + "の特化データがありません"@)
    } else {
        Ok(
            MasterStatsLayoutV::Full {
                star,
                skill_nums: n as usize,
                heaviest: 0,
                lightest: (n - 1) as usize,
                top_heaviest: places(0, if n < 10 { n as int } else { 10 }),
                top_lightest: places(if n < 10 { 0 } else { n - 10 }, n as int),
            },
        )
    }
}

/// The places `lo..hi` with their ranks.
fn places_exec(lo: usize, hi: usize) -> (r: Vec<(usize, usize)>)
    requires
        lo <= hi,
    ensures
        r@ == places(lo as int, hi as int),
{
    let mut r: Vec<(usize, usize)> = Vec::new();
    let mut i = lo;
    while i < hi
        invariant
            lo <= i <= hi,
            r@ == places(lo as int, i as int),
        decreases hi - i,
    {
        r.push((i + 1, i));
        i = i + 1;
        assert(r@ =~= places(lo as int, i as int));
    }
    r
}

/// Lays out the mastery-cost statistics of rarity `star`, given for each
/// place of the ranking (heaviest first) whether its operator is recent
/// (see `master_stats_spec`).
pub fn master_stats_layout(star: u32, is_recent: &Vec<bool>, only_recent: bool) -> (r: Result<
    MasterStatsLayout,
    String,
>)
    ensures
        match r {
            Ok(l) => master_stats_spec(star, is_recent@, only_recent) == Ok::<MasterStatsLayoutV, Seq<char>>(l@),
            Err(m) => master_stats_spec(star, is_recent@, only_recent) == Err::<MasterStatsLayoutV, Seq<char>>(m@),
        },
{
    let n = is_recent.len();
    if only_recent {
        let mut entries: Vec<(usize, usize)> = Vec::new();
        assert(is_recent@.take(0) =~= Seq::<bool>::empty());
        for i in 0..n
            invariant
                n == is_recent@.len(),
                entries@ == recent_places(is_recent@.take(i as int)),
        {
            assert(is_recent@.take(i + 1).drop_last() =~= is_recent@.take(i as int));
            if is_recent[i] {
                entries.push((i + 1, i));
            }
        }
        assert(is_recent@.take(n as int) =~= is_recent@);
        return Ok(MasterStatsLayout::Recent { star, skill_nums: n, entries });
    }
    if n == 0 {
        return Err(no_master_data_error(star));
    }
    let heavy_end = if n < 10 {
        n
    } else {
        10
    };
    let light_start = if n < 10 {
        0
    } else {
        n - 10
    };
    let top_heaviest = places_exec(0, heavy_end);
    let top_lightest = places_exec(light_start, n);
    Ok(
        MasterStatsLayout::Full {
            star,
            skill_nums: n,
            heaviest: 0,
            lightest: n - 1,
            top_heaviest,
            top_lightest,
        },
    )
}

} // verus!
