//! The decisions of a stage search around fetching the data: which
//! server's stages are used (the mainland's when the global server has no
//! stage of that code), when the search fails, and in which order the
//! stages are shown.
use vstd::prelude::*;
use crate::fk_kill_calc::catalog::{text_le, text_le_exec};
use crate::sorting::{insertion_sort, lemma_insert_sorted_at, lemma_insertion_sort_push};
use crate::text::{push_str, to_owned, views};
use super::server::Server;

verus! {

/// Positions ordered by the names at them.
pub open spec fn by_name(names: Seq<Seq<char>>) -> spec_fn(int, int) -> bool {
    |a: int, b: int| text_le(names[a], names[b])
}

/// The positions of `names`, stably sorted by name.
pub open spec fn name_order(names: Seq<Seq<char>>) -> Seq<int> {
    insertion_sort(Seq::new(names.len(), |i: int| i), by_name(names))
}

/// The outcome of a stage search on `server` for `code`, given the names
/// of the stages found on that server and on the mainland server: the
/// mainland's stages when the global server was asked and has none; an
/// error when the stages used are none; else the server used and the
/// positions of its stages in name order.
pub open spec fn search_plan_spec(
    server: Server,
    code: Seq<char>,
    hits: Seq<Seq<char>>,
    mainland_hits: Seq<Seq<char>>,
) -> Result<(Server, Seq<int>), Seq<char>> {
    let fall_back = server == Server::Global && hits.len() == 0;
    let used = if fall_back {
        mainland_hits
    } else {
        hits
    };
    let s = if fall_back {
        Server::Mainland
    } else {
        server
    };
    if used.len() == 0 {
        Err("無効なステージ指定"@ + code)
    } else {
        Ok((s, name_order(used)))
    }
}

/// Whether a search on `server` that found `hits` stages has to be made
/// again on the mainland server.
pub fn needs_mainland(server: Server, hits: usize) -> (r: bool)
    ensures
        r == (server == Server::Global && hits == 0),
{
    server == Server::Global && hits == 0
}

/// The positions of `names` in name order (see `name_order`).
fn sort_by_name(names: &Vec<String>) -> (r: Vec<usize>)
    ensures
        r@.map_values(|i: usize| i as int) == name_order(views(names@)),
{
    let ghost nv = views(names@);
    let ghost all = Seq::new(nv.len(), |i: int| i);
    let mut out: Vec<usize> = Vec::new();
    let n = names.len();
    assert(all.take(0) =~= Seq::<int>::empty());
    assert(out@.map_values(|i: usize| i as int) =~= Seq::<int>::empty());
    for i in 0..n
        invariant
            n == names@.len(),
            nv == views(names@),
            all == Seq::new(nv.len(), |i: int| i),
            out@.map_values(|i: usize| i as int) == insertion_sort(all.take(i as int), by_name(nv)),
            forall|j: int| 0 <= j < out@.len() ==> out@[j] < i,
    {
        let ghost ov = out@.map_values(|i: usize| i as int);
        let mut k = out.len();
        while k > 0 && !text_le_exec(names[out[k - 1]].as_str(), names[i].as_str())
            invariant
                k <= out@.len(),
                i < n,
                n == names@.len(),
                nv == views(names@),
                ov == out@.map_values(|i: usize| i as int),
                forall|j: int| 0 <= j < out@.len() ==> out@[j] < i,
                forall|j: int| k <= j < ov.len() ==> !(by_name(nv))(#[trigger] ov[j], i as int),
            decreases k,
        {
            assert(ov[k - 1] == out@[k - 1] as int);
            k = k - 1;
        }
        proof {
            if k > 0 {
                assert(ov[k - 1] == out@[k - 1] as int);
            }
            lemma_insert_sorted_at(ov, i as int, by_name(nv), k as int);
            lemma_insertion_sort_push(all.take(i as int), i as int, by_name(nv));
            assert(all.take(i + 1) =~= all.take(i as int).push(i as int));
        }
        out.insert(k, i);
        assert(out@.map_values(|i: usize| i as int) =~= ov.take(k as int).push(i as int) + ov.skip(k as int));
    }
    assert(all.take(n as int) =~= all);
    out
}

/// Decides a stage search (see `search_plan_spec`): `hits` are the names
/// of the stages found on `server`, `mainland_hits` those found on the
/// mainland server (read only when falling back).
pub fn stage_search_plan(
    server: Server,
    target_code: &str,
    hits: &Vec<String>,
    mainland_hits: &Vec<String>,
) -> (r: Result<(Server, Vec<usize>), String>)
    ensures
        match r {
            Ok((s, v)) => search_plan_spec(server, target_code@, views(hits@), views(mainland_hits@))
                == Ok::<(Server, Seq<int>), Seq<char>>((s, v@.map_values(|i: usize| i as int))),
            Err(m) => search_plan_spec(server, target_code@, views(hits@), views(mainland_hits@))
                == Err::<(Server, Seq<int>), Seq<char>>(m@),
        },
{
    let fall_back = needs_mainland(server, hits.len());
    let used = if fall_back {
        mainland_hits
    } else {
        hits
    };
    let s = if fall_back {
        Server::Mainland
    } else {
        server
    };
    if used.len() == 0 {
        let mut m = to_owned("無効なステージ指定");
        push_str(&mut m, target_code);
        return Err(m);
    }
    Ok((s, sort_by_name(used)))
}

} // verus!
