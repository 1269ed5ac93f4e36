//! Item ids, mainland names and Japanese names, in each direction.
use vstd::prelude::*;
use super::names::{lookup, StrMap};

verus! {

/// The four tables of `ItemNames` as plain values.
pub struct ItemNamesV {
    pub id_to_ja: Seq<(Seq<char>, Seq<char>)>,
    pub id_to_zh: Seq<(Seq<char>, Seq<char>)>,
    pub zh_to_id: Seq<(Seq<char>, Seq<char>)>,
    pub ja_to_id: Seq<(Seq<char>, Seq<char>)>,
}

/// Item ids, mainland (zh) names and Japanese (ja) names.
pub struct ItemNames {
    id_to_ja: StrMap,
    id_to_zh: StrMap,
    zh_to_id: StrMap,
    ja_to_id: StrMap,
}

impl View for ItemNames {
    type V = ItemNamesV;

    closed spec fn view(&self) -> ItemNamesV {
        ItemNamesV {
            id_to_ja: self.id_to_ja@,
            id_to_zh: self.id_to_zh@,
            zh_to_id: self.zh_to_id@,
            ja_to_id: self.ja_to_id@,
        }
    }
}

/// A hand-written item: its id and both names.
pub struct CustomIdEntry {
    pub id: String,
    pub zh: String,
    pub ja: String,
}

// ---------------------------------------------------------------------------
// Specification
// ---------------------------------------------------------------------------

/// The tables with nothing set.
pub open spec fn empty_names() -> ItemNamesV {
    ItemNamesV { id_to_ja: seq![], id_to_zh: seq![], zh_to_id: seq![], ja_to_id: seq![] }
}

/// `id` and `ja` recorded as the Japanese name of the item.
pub open spec fn with_ja(n: ItemNamesV, id: Seq<char>, ja: Seq<char>) -> ItemNamesV {
    ItemNamesV { id_to_ja: n.id_to_ja.push((id, ja)), ja_to_id: n.ja_to_id.push((ja, id)), ..n }
}

/// `id` and `zh` recorded as the mainland name of the item.
pub open spec fn with_zh(n: ItemNamesV, id: Seq<char>, zh: Seq<char>) -> ItemNamesV {
    ItemNamesV { zh_to_id: n.zh_to_id.push((zh, id)), id_to_zh: n.id_to_zh.push((id, zh)), ..n }
}

/// One hand-written item applied: a missing name of a known id is filled
/// in; a name pair already known under another id, or whose known id
/// already has the other name, is skipped; a name known under another id
/// gets the other name; an unknown item is added whole.
pub open spec fn custom_step(n: ItemNamesV, id: Seq<char>, zh: Seq<char>, ja: Seq<char>) -> ItemNamesV {
    let has_zh = lookup(n.id_to_zh, id) is Some;
    let has_ja = lookup(n.id_to_ja, id) is Some;
    if has_zh && has_ja {
        n
    } else if has_ja {
        with_zh(n, id, zh)
    } else if has_zh {
        with_ja(n, id, ja)
    } else if lookup(n.zh_to_id, zh) is Some && lookup(n.ja_to_id, ja) is Some {
        n
    } else {
        match lookup(n.zh_to_id, zh) {
            Some(eid) => if lookup(n.id_to_ja, eid) is Some {
                n
            } else {
                with_ja(n, eid, ja)
            },
            None => match lookup(n.ja_to_id, ja) {
                Some(eid) => if lookup(n.id_to_zh, eid) is Some {
                    n
                } else {
                    with_zh(n, eid, zh)
                },
                None => with_zh(with_ja(n, id, ja), id, zh),
            },
        }
    }
}

/// The hand-written items applied in order.
pub open spec fn apply_custom_spec(n: ItemNamesV, es: Seq<(Seq<char>, Seq<char>, Seq<char>)>) -> ItemNamesV
    decreases es.len(),
{
    if es.len() == 0 {
        n
    } else {
        let e = es.last();
        custom_step(apply_custom_spec(n, es.drop_last()), e.0, e.1, e.2)
    }
}

/// The mainland items recorded in order, each with its Japanese name from
/// the Japanese table, else from the custom names.
pub open spec fn cn_pass(
    n: ItemNamesV,
    cn: Seq<(Seq<char>, Seq<char>)>,
    jp: Seq<(Seq<char>, Seq<char>)>,
    custom: Seq<(Seq<char>, Seq<char>)>,
) -> ItemNamesV
    decreases cn.len(),
{
    if cn.len() == 0 {
        n
    } else {
        let p = cn_pass(n, cn.drop_last(), jp, custom);
        let (id, zh) = cn.last();
        let q = with_zh(p, id, zh);
        match (match lookup(jp, id) {
            Some(j) => Some(j),
            None => lookup(custom, zh),
        }) {
            Some(ja) => with_ja(q, id, ja),
            None => q,
        }
    }
}

/// The Japanese-only items recorded in order.
pub open spec fn jp_pass(n: ItemNamesV, jp: Seq<(Seq<char>, Seq<char>)>) -> ItemNamesV
    decreases jp.len(),
{
    if jp.len() == 0 {
        n
    } else {
        let p = jp_pass(n, jp.drop_last());
        let (id, ja) = jp.last();
        if lookup(p.id_to_zh, id) is Some {
            p
        } else {
            with_ja(p, id, ja)
        }
    }
}

/// The hand-written items as plain values.
pub open spec fn custom_views(es: Seq<CustomIdEntry>) -> Seq<(Seq<char>, Seq<char>, Seq<char>)> {
    es.map_values(|e: CustomIdEntry| (e.id@, e.zh@, e.ja@))
}

// ---------------------------------------------------------------------------
// Implementation
// ---------------------------------------------------------------------------

impl ItemNames {
    /// Tables with nothing set.
    pub fn empty() -> (r: ItemNames)
        ensures
            r@ == empty_names(),
    {
        let r = ItemNames {
            id_to_ja: StrMap::new(),
            id_to_zh: StrMap::new(),
            zh_to_id: StrMap::new(),
            ja_to_id: StrMap::new(),
        };
        r
    }

    /// Records the Japanese name `ja` of item `id`.
    fn set_ja(&mut self, id: &String, ja: &String)
        ensures
            final(self)@ == with_ja(old(self)@, id@, ja@),
    {
        self.id_to_ja.insert(id.clone(), ja.clone());
        self.ja_to_id.insert(ja.clone(), id.clone());
    }

    /// Records the mainland name `zh` of item `id`.
    fn set_zh(&mut self, id: &String, zh: &String)
        ensures
            final(self)@ == with_zh(old(self)@, id@, zh@),
    {
        self.zh_to_id.insert(zh.clone(), id.clone());
        self.id_to_zh.insert(id.clone(), zh.clone());
    }

    /// Builds the tables: the mainland items `cn` (id, name) in order, each
    /// with its Japanese name from `jp` (id to name), else from
    /// `custom_zh_to_ja`; then the items only `jp` has; then the
    /// hand-written items.
    pub fn build(
        cn: &Vec<(String, String)>,
        jp: &StrMap,
        custom_zh_to_ja: &StrMap,
        custom_ids: &Vec<CustomIdEntry>,
    ) -> (r: ItemNames)
        ensures
            r@ == apply_custom_spec(
                jp_pass(
                    cn_pass(
                        empty_names(),
                        cn@.map_values(|p: (String, String)| (p.0@, p.1@)),
                        jp@,
                        custom_zh_to_ja@,
                    ),
                    jp@,
                ),
                custom_views(custom_ids@),
            ),
    {
        let mut names = ItemNames::empty();
        let ghost cv = cn@.map_values(|p: (String, String)| (p.0@, p.1@));
        let n = cn.len();
        assert(cv.take(0) =~= Seq::<(Seq<char>, Seq<char>)>::empty());
        for i in 0..n
            invariant
                n == cn@.len(),
                cv == cn@.map_values(|p: (String, String)| (p.0@, p.1@)),
                names@ == cn_pass(empty_names(), cv.take(i as int), jp@, custom_zh_to_ja@),
        {
            assert(cv.take(i + 1).drop_last() =~= cv.take(i as int));
            assert(cv.take(i + 1).last() == cv[i as int]);
            let (id, zh) = (&cn[i].0, &cn[i].1);
            names.set_zh(id, zh);
            let ja = match jp.get(id.as_str()) {
                Some(j) => Some(j),
                None => custom_zh_to_ja.get(zh.as_str()),
            };
            match ja {
                Some(j) => {
                    names.set_ja(id, j);
                },
                None => {},
            }
        }
        assert(cv.take(n as int) =~= cv);
        let ghost after_cn = names@;
        let jpv = jp.pairs();
        let m = jpv.len();
        assert(jp@.take(0) =~= Seq::<(Seq<char>, Seq<char>)>::empty());
        for i in 0..m
            invariant
                m == jpv@.len(),
                jpv@.map_values(|p: (String, String)| (p.0@, p.1@)) == jp@,
                names@ == jp_pass(after_cn, jp@.take(i as int)),
        {
            assert(jp@.take(i + 1).drop_last() =~= jp@.take(i as int));
            assert(jp@.take(i + 1).last() == jp@[i as int]);
            assert(jp@[i as int] == (jpv@[i as int].0@, jpv@[i as int].1@));
            let (id, ja) = (&jpv[i].0, &jpv[i].1);
            if !names.id_to_zh.contains_key(id.as_str()) {
                names.set_ja(id, ja);
            }
        }
        assert(jp@.take(m as int) =~= jp@);
        apply_custom_item_ids(&mut names, custom_ids);
        names
    }

    /// The Japanese name of an item, else its mainland name, else "Missing".
    pub fn get_str(&self, id: &str) -> (r: &str)
        ensures
            r@ == match lookup(self@.id_to_ja, id@) {
                Some(n) => n,
                None => match lookup(self@.id_to_zh, id@) {
                    Some(n) => n,
                    None => "Missing"@,
                },
            },
    {
        match self.id_to_ja.get(id) {
            Some(n) => n.as_str(),
            None => match self.id_to_zh.get(id) {
                Some(n) => n.as_str(),
                None => "Missing",
            },
        }
    }

    /// The Japanese name for a mainland name (through its id); the mainland
    /// name itself when there is none.
    pub fn zh_to_ja<'a>(&'a self, zh: &'a str) -> (r: &'a str)
        ensures
            r@ == match lookup(self@.zh_to_id, zh@) {
                Some(id) => match lookup(self@.id_to_ja, id) {
                    Some(ja) => ja,
                    None => zh@,
                },
                None => zh@,
            },
    {
        match self.zh_to_id.get(zh) {
            Some(id) => match self.id_to_ja.get(id.as_str()) {
                Some(ja) => ja.as_str(),
                None => zh,
            },
            None => zh,
        }
    }

    /// The id of a mainland name.
    pub fn zh_to_id(&self, zh: &str) -> (r: Option<&str>)
        ensures
            match lookup(self@.zh_to_id, zh@) {
                Some(id) => r matches Some(x) && x@ == id,
                None => r is None,
            },
    {
        match self.zh_to_id.get(zh) {
            Some(id) => Some(id.as_str()),
            None => None,
        }
    }

    /// The id of a Japanese name.
    pub fn ja_to_id(&self, ja: &str) -> (r: Option<&str>)
        ensures
            match lookup(self@.ja_to_id, ja@) {
                Some(id) => r matches Some(x) && x@ == id,
                None => r is None,
            },
    {
        match self.ja_to_id.get(ja) {
            Some(id) => Some(id.as_str()),
            None => None,
        }
    }

    /// The mainland name of an item, or "Missing".
    pub fn get_zh(&self, id: &str) -> (r: &str)
        ensures
            r@ == match lookup(self@.id_to_zh, id@) {
                Some(n) => n,
                None => "Missing"@,
            },
    {
        match self.id_to_zh.get(id) {
            Some(n) => n.as_str(),
            None => "Missing",
        }
    }
}

/// Applies the hand-written items in order (see `custom_step`).
pub fn apply_custom_item_ids(names: &mut ItemNames, entries: &Vec<CustomIdEntry>)
    ensures
        final(names)@ == apply_custom_spec(old(names)@, custom_views(entries@)),
{
    let ghost n0 = names@;
    let ghost ev = custom_views(entries@);
    let n = entries.len();
    assert(ev.take(0) =~= Seq::<(Seq<char>, Seq<char>, Seq<char>)>::empty());
    for i in 0..n
        invariant
            n == entries@.len(),
            ev == custom_views(entries@),
            names@ == apply_custom_spec(n0, ev.take(i as int)),
    {
        assert(ev.take(i + 1).drop_last() =~= ev.take(i as int));
        assert(ev.take(i + 1).last() == ev[i as int]);
        let item = &entries[i];
        let (id, zh, ja) = (&item.id, &item.zh, &item.ja);
        let has_zh = names.id_to_zh.contains_key(id.as_str());
        let has_ja = names.id_to_ja.contains_key(id.as_str());
        if has_zh && has_ja {
        } else if has_ja {
            names.set_zh(id, zh);
        } else if has_zh {
            names.set_ja(id, ja);
        } else if names.zh_to_id.contains_key(zh.as_str()) && names.ja_to_id.contains_key(
            ja.as_str(),
        ) {
        } else {
            match names.zh_to_id.get(zh.as_str()) {
                Some(eid) => {
                    let eid = eid.clone();
                    if !names.id_to_ja.contains_key(eid.as_str()) {
                        names.set_ja(&eid, ja);
                    }
                },
                None => match names.ja_to_id.get(ja.as_str()) {
                    Some(eid) => {
                        let eid = eid.clone();
                        if !names.id_to_zh.contains_key(eid.as_str()) {
                            names.set_zh(&eid, zh);
                        }
                    },
                    None => {
                        names.set_ja(id, ja);
                        names.set_zh(id, zh);
                    },
                },
            }
        }
    }
    assert(ev.take(n as int) =~= ev);
}

} // verus!
