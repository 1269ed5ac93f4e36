//! Stages sorted into categories: which stages count as main or event
//! stages, which stages each category has, and a random starting choice of
//! one stage per category.
use vstd::prelude::*;
use rand::seq::SliceRandom;
use crate::outer_source::names::{lookup, StrMap};
use crate::text::{contains, has_sub, lemma_push_fresh, list_contains, str_eq, to_owned, views};
use super::server::{new_zone_mainland_only, new_zone_mainland_only_list, Server};
use super::table::StageCategoryInfo;

verus! {

/// A stage category and the ids of its stages.
pub struct CategoryInstance {
    pub info: StageCategoryInfo,
    pub stage_ids: Vec<String>,
}

/// Where a stage of the drop statistics goes.
#[derive(Clone, Copy, Debug, PartialEq, Eq, Structural)]
pub enum StageKind {
    /// A main-story, side-story or permanent stage.
    Main,
    /// A stage of a running event.
    Event,
    /// Neither.
    Ignored,
}

/// How many times a starting choice is drawn before giving up.
pub const MAX_SEED_GENERATION_ATTEMPTS: usize = 10000;

// ---------------------------------------------------------------------------
// Specification
// ---------------------------------------------------------------------------

/// Zones left out of the main stages: mainland-only zones on the global
/// server, the recruitment zone, and challenge ("tough") zones.
pub open spec fn zone_excluded(server: Server, zone_id: Seq<char>) -> bool {
    (server == Server::Global && new_zone_mainland_only_list().contains(zone_id)) || zone_id
        == "recruit"@ || has_sub(zone_id, "tough"@)
}

/// Where a stage goes: main and side stories and permanent events outside
/// excluded zones are main stages; other event stages (not permanent, in an
/// "act" zone, not a gacha stage, not the `act10d5` zone) are event stages.
pub open spec fn stage_kind(
    server: Server,
    stage_type: Seq<char>,
    zone_id: Seq<char>,
    stage_id: Seq<char>,
) -> StageKind {
    let main_or_sub = stage_type == "MAIN"@ || stage_type == "SUB"@;
    let permanent = stage_type == "ACTIVITY"@ && has_sub(zone_id, "permanent"@);
    if (main_or_sub || permanent) && !zone_excluded(server, zone_id) {
        StageKind::Main
    } else if stage_type == "ACTIVITY"@ && !has_sub(zone_id, "permanent"@) && has_sub(zone_id, "act"@)
        && !has_sub(stage_id, "gacha"@) && !has_sub(zone_id, "act10d5"@) {
        StageKind::Event
    } else {
        StageKind::Ignored
    }
}

/// The stage ids of a category's stage codes that are known, in order.
pub open spec fn stage_ids_of(codes: Seq<Seq<char>>, code_to_id: Seq<(Seq<char>, Seq<char>)>) -> Seq<Seq<char>>
    decreases codes.len(),
{
    if codes.len() == 0 {
        seq![]
    } else {
        let p = stage_ids_of(codes.drop_last(), code_to_id);
        match lookup(code_to_id, codes.last()) {
            Some(id) => p.push(id),
            None => p,
        }
    }
}

/// The message when no starting choice without repeats was found.
pub open spec fn seed_failure_message() -> Seq<char> {
    "基準マップの初期seed生成が10000回のリトライでも重複を解消できませんでした。カテゴリ定義（data/risei/stage_category.json）で複数カテゴリが同じステージしか候補に持てない状態になっている可能性があります"@
}

/// A starting choice for the categories whose candidates are `cands`: for
/// each category one of its candidates (none when it has none), no stage
/// chosen twice.
pub open spec fn valid_seed(cands: Seq<Seq<Seq<char>>>, seed: Seq<Option<Seq<char>>>) -> bool {
    &&& seed.len() == cands.len()
    &&& forall|i: int| 0 <= i < seed.len() ==> (#[trigger] seed[i] is None <==> cands[i].len() == 0)
    &&& forall|i: int| 0 <= i < seed.len() ==> (#[trigger] seed[i] matches Some(x) ==> cands[i].contains(x))
    &&& chosen_ids(seed).no_duplicates()
}

/// The stages chosen, in category order.
pub open spec fn chosen_ids(seed: Seq<Option<Seq<char>>>) -> Seq<Seq<char>>
    decreases seed.len(),
{
    if seed.len() == 0 {
        seq![]
    } else {
        let p = chosen_ids(seed.drop_last());
        match seed.last() {
            Some(x) => p.push(x),
            None => p,
        }
    }
}

// ---------------------------------------------------------------------------
// Implementation
// ---------------------------------------------------------------------------

/// Whether one of the strings of `v` is `s`.
pub(crate) fn str_list_contains(v: &Vec<&'static str>, s: &str) -> (r: bool)
    ensures
        r == v@.map_values(|x: &str| x@).contains(s@),
{
    let ghost vv = v@.map_values(|x: &str| x@);
    let n = v.len();
    for i in 0..n
        invariant
            n == v@.len(),
            vv == v@.map_values(|x: &str| x@),
            forall|j: int| 0 <= j < i ==> vv[j] != s@,
    {
        if str_eq(v[i], s) {
            assert(vv[i as int] == s@);
            return true;
        }
    }
    false
}

/// Where a stage goes (see `stage_kind`).
pub fn classify_stage(server: Server, stage_type: &str, zone_id: &str, stage_id: &str) -> (r:
    StageKind)
    ensures
        r == stage_kind(server, stage_type@, zone_id@, stage_id@),
{
    let main_or_sub = str_eq(stage_type, "MAIN") || str_eq(stage_type, "SUB");
    let permanent = str_eq(stage_type, "ACTIVITY") && contains(zone_id, "permanent");
    if main_or_sub || permanent {
        let new_zones = new_zone_mainland_only();
        let excluded = (server == Server::Global && str_list_contains(&new_zones, zone_id)) || str_eq(
            zone_id,
            "recruit",
        ) || contains(zone_id, "tough");
        if !excluded {
            return StageKind::Main;
        }
    }
    if str_eq(stage_type, "ACTIVITY") && !contains(zone_id, "permanent") && contains(zone_id, "act")
        && !contains(stage_id, "gacha") && !contains(zone_id, "act10d5") {
        StageKind::Event
    } else {
        StageKind::Ignored
    }
}

/// The stage ids of a category's stages, by their codes (see
/// `stage_ids_of`).
pub fn category_stage_ids(info: &StageCategoryInfo, code_to_id: &StrMap) -> (r: Vec<String>)
    ensures
        views(r@) == stage_ids_of(views(info.stages@), code_to_id@),
{
    let ghost cv = views(info.stages@);
    let mut out: Vec<String> = Vec::new();
    let n = info.stages.len();
    assert(cv.take(0) =~= Seq::<Seq<char>>::empty());
    for i in 0..n
        invariant
            n == info.stages@.len(),
            cv == views(info.stages@),
            views(out@) == stage_ids_of(cv.take(i as int), code_to_id@),
    {
        assert(cv.take(i + 1).drop_last() =~= cv.take(i as int));
        assert(cv.take(i + 1).last() == cv[i as int]);
        match code_to_id.get(info.stages[i].as_str()) {
            Some(id) => {
                let ghost before = views(out@);
                out.push(id.clone());
                assert(views(out@) =~= before.push(id@));
            },
            None => {},
        }
    }
    assert(cv.take(n as int) =~= cv);
    out
}

/// `SliceRandom::choose` with the thread's random generator: one of the
/// candidates, picked at random; `None` exactly when there is none.
#[verifier::external_body]
fn choose_candidate(v: &Vec<String>) -> (r: Option<String>)
    ensures
        r is None <==> v@.len() == 0,
        r matches Some(x) ==> views(v@).contains(x@),
{
    v.choose(&mut rand::thread_rng()).cloned()
}

/// One candidate per category, drawn at random.
fn draw_seed(cands: &Vec<Vec<String>>) -> (r: Vec<Option<String>>)
    ensures
        r@.len() == cands@.len(),
        forall|i: int|
            0 <= i < r@.len() ==> (#[trigger] r@[i] is None <==> cands@[i]@.len() == 0),
        forall|i: int|
            0 <= i < r@.len() ==> (#[trigger] r@[i] matches Some(x) ==> views(cands@[i]@).contains(x@)),
{
    let mut out: Vec<Option<String>> = Vec::new();
    let n = cands.len();
    for i in 0..n
        invariant
            n == cands@.len(),
            out@.len() == i,
            forall|j: int|
                0 <= j < i ==> (#[trigger] out@[j] is None <==> cands@[j]@.len() == 0),
            forall|j: int|
                0 <= j < i ==> (#[trigger] out@[j] matches Some(x) ==> views(cands@[j]@).contains(x@)),
    {
        let c = choose_candidate(&cands[i]);
        out.push(c);
    }
    out
}

/// The stages chosen, in category order.
fn chosen_of(seed: &Vec<Option<String>>) -> (r: Vec<String>)
    ensures
        views(r@) == chosen_ids(seed@.map_values(|o: Option<String>| match o {
            Some(x) => Some(x@),
            None => None,
        })),
{
    let ghost sv = seed@.map_values(|o: Option<String>| match o {
        Some(x) => Some(x@),
        None => None,
    });
    let mut out: Vec<String> = Vec::new();
    let n = seed.len();
    assert(sv.take(0) =~= Seq::<Option<Seq<char>>>::empty());
    for i in 0..n
        invariant
            n == seed@.len(),
            sv == seed@.map_values(|o: Option<String>| match o {
                Some(x) => Some(x@),
                None => None,
            }),
            views(out@) == chosen_ids(sv.take(i as int)),
    {
        assert(sv.take(i + 1).drop_last() =~= sv.take(i as int));
        assert(sv.take(i + 1).last() == sv[i as int]);
        match &seed[i] {
            Some(x) => {
                let ghost before = views(out@);
                out.push(x.clone());
                assert(views(out@) =~= before.push(x@));
            },
            None => {},
        }
    }
    assert(sv.take(n as int) =~= sv);
    out
}

/// Whether the strings of `v` are all different.
fn all_distinct(v: &Vec<String>) -> (r: bool)
    ensures
        r == views(v@).no_duplicates(),
{
    let ghost vv = views(v@);
    let mut seen: Vec<String> = Vec::new();
    let n = v.len();
    for i in 0..n
        invariant
            n == v@.len(),
            vv == views(v@),
            views(seen@) == vv.take(i as int),
            vv.take(i as int).no_duplicates(),
    {
        if list_contains(&seen, v[i].as_str()) {
            let ghost k = choose|k: int| 0 <= k < i && vv.take(i as int)[k] == vv[i as int];
            assert(vv[k] == vv[i as int]);
            return false;
        }
        proof {
            lemma_push_fresh(vv.take(i as int), vv[i as int]);
        }
        let ghost before = views(seen@);
        seen.push(v[i].clone());
        assert(views(seen@) =~= before.push(vv[i as int]));
        assert(vv.take(i + 1) =~= vv.take(i as int).push(vv[i as int]));
    }
    assert(vv.take(n as int) =~= vv);
    true
}

/// A seed as plain values.
pub open spec fn seed_view(seed: Seq<Option<String>>) -> Seq<Option<Seq<char>>> {
    seed.map_values(|o: Option<String>| match o {
        Some(x) => Some(x@),
        None => None,
    })
}

/// Accepts a drawn seed when no stage is chosen twice in it, and hands it
/// back unchanged; `None` when some stage is chosen twice.
pub fn accept_draw(seed: Vec<Option<String>>) -> (r: Option<Vec<Option<String>>>)
    ensures
        r is Some <==> chosen_ids(seed_view(seed@)).no_duplicates(),
        r matches Some(s) ==> s@ == seed@,
{
    let chosen = chosen_of(&seed);
    assert(seed_view(seed@) == seed@.map_values(|o: Option<String>| match o {
        Some(x) => Some(x@),
        None => None,
    }));
    if all_distinct(&chosen) {
        Some(seed)
    } else {
        None
    }
}

/// Every category has at most one candidate, so no draw has a choice.
pub open spec fn no_choice(cands: Seq<Seq<Seq<char>>>) -> bool {
    forall|i: int| 0 <= i < cands.len() ==> (#[trigger] cands[i]).len() <= 1
}

/// The only choice when no category has more than one candidate: its
/// candidate, or none.
pub open spec fn forced_seed(cands: Seq<Seq<Seq<char>>>) -> Seq<Option<Seq<char>>> {
    cands.map_values(|c: Seq<Seq<char>>| if c.len() == 0 {
        None
    } else {
        Some(c[0])
    })
}

/// A random starting choice of one stage per category, given each
/// category's candidate stage ids, with no stage chosen twice; drawn again
/// until that holds, at most `MAX_SEED_GENERATION_ATTEMPTS` times, after
/// which an error message is returned. When no category has a choice and
/// the single candidates differ, the choice is found at once.
pub fn generate_category_seed(cands: &Vec<Vec<String>>) -> (r: Result<Vec<Option<String>>, String>)
    ensures
        ({
            let cv = cands@.map_values(|c: Vec<String>| views(c@));
            no_choice(cv) && chosen_ids(forced_seed(cv)).no_duplicates() ==> r is Ok
        }),
        match r {
            Ok(seed) => valid_seed(
                cands@.map_values(|c: Vec<String>| views(c@)),
                seed@.map_values(|o: Option<String>| match o {
                    Some(x) => Some(x@),
                    None => None,
                }),
            ),
            Err(msg) => msg@ == seed_failure_message(),
        },
{
    let ghost cv = cands@.map_values(|c: Vec<String>| views(c@));
    let mut attempt: usize = 0;
    while attempt < MAX_SEED_GENERATION_ATTEMPTS
        invariant
            attempt <= MAX_SEED_GENERATION_ATTEMPTS,
            cv == cands@.map_values(|c: Vec<String>| views(c@)),
            no_choice(cv) && chosen_ids(forced_seed(cv)).no_duplicates() ==> attempt == 0,
        decreases MAX_SEED_GENERATION_ATTEMPTS - attempt,
    {
        let seed = draw_seed(cands);
        proof {
            if no_choice(cv) {
                let sv = seed@.map_values(|o: Option<String>| match o {
                    Some(x) => Some(x@),
                    None => None,
                });
                assert forall|i: int| 0 <= i < sv.len() implies #[trigger] sv[i] == forced_seed(cv)[i] by {
                    assert(cv[i] == views(cands@[i]@));
                    assert(cv[i].len() <= 1);
                    if seed@[i] is Some {
                        let x = seed@[i]->0@;
                        assert(sv[i] == Some(x));
                        assert(cv[i].contains(x));
                        let k = choose|k: int| 0 <= k < cv[i].len() && cv[i][k] == x;
                        assert(k == 0);
                    }
                }
                assert(sv =~= forced_seed(cv));
            }
        }
        let ghost drawn = seed@;
        if let Some(seed) = accept_draw(seed) {
            let ghost sv = seed_view(seed@);
            assert(seed@ == drawn);
            assert forall|i: int| 0 <= i < sv.len() implies (#[trigger] sv[i] is None <==> cv[i].len() == 0) by {
                assert(sv[i] is None <==> seed@[i] is None);
            }
            assert forall|i: int| 0 <= i < sv.len() implies (#[trigger] sv[i] matches Some(x) ==> cv[i].contains(x)) by {
                if seed@[i] is Some {
                    assert(sv[i] == Some(seed@[i]->0@));
                }
            }
            return Ok(seed);
        }
        attempt = attempt + 1;
    }
    Err(to_owned("基準マップの初期seed生成が10000回のリトライでも重複を解消できませんでした。カテゴリ定義（data/risei/stage_category.json）で複数カテゴリが同じステージしか候補に持てない状態になっている可能性があります"))
}


/// A stage's code, marked `(Re)` for a rerun zone.
pub open spec fn stage_code(name: Seq<char>, zone_id: Seq<char>) -> Seq<char> {
    if has_sub(zone_id, "re_"@) {
        name + "(Re)"@
    } else {
        name
    }
}

/// The code of a stage with its rerun mark (see `stage_code`).
pub fn name_with_replicate(name: &str, zone_id: &str) -> (r: String)
    ensures
        r@ == stage_code(name@, zone_id@),
{
    let mut s = to_owned(name);
    if contains(zone_id, "re_") {
        crate::text::push_str(&mut s, "(Re)");
    }
    s
}

/// The positions of the stages tried at least `min_times` times, in order;
/// every position when there is none.
pub open spec fn valid_or_all(max_times: Seq<i64>, min_times: i64) -> Seq<int> {
    let valid = Seq::new(max_times.len(), |i: int| i).filter(|i: int| max_times[i] >= min_times);
    if valid.len() == 0 {
        Seq::new(max_times.len(), |i: int| i)
    } else {
        valid
    }
}

/// The stages to use (see `valid_or_all`), given how often each was tried.
pub fn stages_for_min_times(max_times: &Vec<i64>, min_times: i64) -> (r: Vec<usize>)
    ensures
        r@.map_values(|i: usize| i as int) == valid_or_all(max_times@, min_times),
{
    let ghost all = Seq::new(max_times@.len(), |i: int| i);
    let ghost p = |i: int| max_times@[i] >= min_times;
    let mut valid: Vec<usize> = Vec::new();
    let mut every: Vec<usize> = Vec::new();
    let n = max_times.len();
    assert(all.take(0) =~= Seq::<int>::empty());
    for i in 0..n
        invariant
            n == max_times@.len(),
            all == Seq::new(max_times@.len(), |i: int| i),
            p == (|i: int| max_times@[i] >= min_times),
            valid@.map_values(|i: usize| i as int) == all.take(i as int).filter(p),
            every@.map_values(|i: usize| i as int) == all.take(i as int),
    {
        proof {
            reveal(Seq::filter);
        }
        assert(all.take(i + 1).drop_last() =~= all.take(i as int));
        assert(all.take(i + 1).last() == i as int);
        let ghost vb = valid@.map_values(|i: usize| i as int);
        let ghost eb = every@.map_values(|i: usize| i as int);
        if max_times[i] >= min_times {
            valid.push(i);
            assert(valid@.map_values(|i: usize| i as int) =~= vb.push(i as int));
        }
        every.push(i);
        assert(every@.map_values(|i: usize| i as int) =~= eb.push(i as int));
        assert(all.take(i + 1) =~= all.take(i as int).push(i as int));
    }
    assert(all.take(n as int) =~= all);
    if valid.len() == 0 {
        every
    } else {
        valid
    }
}

} // verus!
