//! A string-keyed lookup table whose later entries take precedence, and
//! the operator-name table built from the game's character tables.
use vstd::prelude::*;
use crate::text::{split, split_seq, str_eq};

verus! {

/// The value of the last entry for `k`, if any.
pub open spec fn lookup(s: Seq<(Seq<char>, Seq<char>)>, k: Seq<char>) -> Option<Seq<char>>
    decreases s.len(),
{
    if s.len() == 0 {
        None
    } else if s.last().0 == k {
        Some(s.last().1)
    } else {
        lookup(s.drop_last(), k)
    }
}

/// Reading a key just set gives the value set; every other key reads as
/// before.
pub proof fn lemma_lookup_after_insert(
    s: Seq<(Seq<char>, Seq<char>)>,
    k: Seq<char>,
    v: Seq<char>,
    other: Seq<char>,
)
    ensures
        lookup(s.push((k, v)), k) == Some(v),
        other != k ==> lookup(s.push((k, v)), other) == lookup(s, other),
{
    assert(s.push((k, v)).drop_last() =~= s);
}

/// A table from strings to strings; setting a key again replaces its value.
pub struct StrMap {
    entries: Vec<(String, String)>,
}

impl View for StrMap {
    type V = Seq<(Seq<char>, Seq<char>)>;

    /// Every setting, in order.
    closed spec fn view(&self) -> Seq<(Seq<char>, Seq<char>)> {
        self.entries@.map_values(|p: (String, String)| (p.0@, p.1@))
    }
}

impl StrMap {
    /// The empty table.
    pub fn new() -> (r: StrMap)
        ensures
            r@ == Seq::<(Seq<char>, Seq<char>)>::empty(),
    {
        let r = StrMap { entries: Vec::new() };
        assert(r@ =~= Seq::<(Seq<char>, Seq<char>)>::empty());
        r
    }

    /// Sets `k` to `v`.
    pub fn insert(&mut self, k: String, v: String)
        ensures
            final(self)@ == old(self)@.push((k@, v@)),
    {
        let ghost before = self@;
        self.entries.push((k, v));
        assert(self@ =~= before.push((k@, v@)));
    }

    /// The value of `k`, if it is set.
    pub fn get(&self, k: &str) -> (r: Option<&String>)
        ensures
            match lookup(self@, k@) {
                None => r is None,
                Some(v) => r matches Some(x) && x@ == v,
            },
    {
        let mut i = self.entries.len();
        assert(self@.take(i as int) =~= self@);
        while i > 0
            invariant
                i <= self.entries@.len(),
                lookup(self@, k@) == lookup(self@.take(i as int), k@),
            decreases i,
        {
            let ghost t = self@.take(i as int);
            assert(t.drop_last() =~= self@.take(i - 1));
            assert(t.last() == (self.entries@[i - 1].0@, self.entries@[i - 1].1@));
            if str_eq(self.entries[i - 1].0.as_str(), k) {
                return Some(&self.entries[i - 1].1);
            }
            i = i - 1;
        }
        None
    }

    /// Whether `k` is set.
    pub fn contains_key(&self, k: &str) -> (r: bool)
        ensures
            r == lookup(self@, k@) is Some,
    {
        self.get(k).is_some()
    }

    /// The table with the settings of `pairs`, in order.
    pub fn from_pairs(pairs: Vec<(String, String)>) -> (r: StrMap)
        ensures
            r@ == pairs@.map_values(|p: (String, String)| (p.0@, p.1@)),
    {
        let r = StrMap { entries: pairs };
        r
    }

    /// The settings, in order.
    pub fn pairs(&self) -> (r: &Vec<(String, String)>)
        ensures
            r@.map_values(|p: (String, String)| (p.0@, p.1@)) == self@,
    {
        &self.entries
    }
}

/// A character-table key names an operator when its first `_`-separated
/// part is `char`.
pub open spec fn is_char_key_spec(key: Seq<char>) -> bool {
    split_seq(key, "_"@)[0] == "char"@
}

/// Whether a character-table key names an operator (`char_xxx_yyy`).
pub fn is_char_key(key: &str) -> (r: bool)
    ensures
        r == is_char_key_spec(key@),
{
    proof {
        reveal_strlit("_");
    }
    let parts = split(key, "_");
    proof {
        crate::text::lemma_split_nonempty(key@, "_"@);
    }
    str_eq(parts[0].as_str(), "char")
}

/// One entry of the mainland character table, as the name table needs it.
pub struct CharEntry {
    pub key: String,
    /// Whether the entry is marked as not obtainable.
    pub not_obtainable: bool,
    /// The mainland name, when the entry has one.
    pub name: Option<String>,
}

/// `CharEntry` as plain values.
pub open spec fn char_entry_view(e: CharEntry) -> (Seq<char>, bool, Option<Seq<char>>) {
    (
        e.key@,
        e.not_obtainable,
        match e.name {
            Some(n) => Some(n@),
            None => None,
        },
    )
}

/// The Japanese name of an operator entry: the Japanese table's name for
/// its key, else the custom name for its mainland name.
pub open spec fn ja_name_of(
    e: (Seq<char>, bool, Option<Seq<char>>),
    cn_name: Seq<char>,
    jp: Seq<(Seq<char>, Seq<char>)>,
    custom: Seq<(Seq<char>, Seq<char>)>,
) -> Option<Seq<char>> {
    match lookup(jp, e.0) {
        Some(j) => Some(j),
        None => lookup(custom, cn_name),
    }
}

/// The mainland-to-Japanese operator names of the character table, in
/// table order: obtainable operators with a mainland name and a Japanese
/// name.
pub open spec fn cn_to_ja_spec(
    cn: Seq<(Seq<char>, bool, Option<Seq<char>>)>,
    jp: Seq<(Seq<char>, Seq<char>)>,
    custom: Seq<(Seq<char>, Seq<char>)>,
) -> Seq<(Seq<char>, Seq<char>)>
    decreases cn.len(),
{
    if cn.len() == 0 {
        seq![]
    } else {
        let p = cn_to_ja_spec(cn.drop_last(), jp, custom);
        let e = cn.last();
        if !is_char_key_spec(e.0) || e.1 {
            p
        } else {
            match e.2 {
                None => p,
                Some(cn_name) => match ja_name_of(e, cn_name, jp, custom) {
                    Some(ja) => p.push((cn_name, ja)),
                    None => p,
                },
            }
        }
    }
}

/// Builds the mainland-to-Japanese operator names (see `cn_to_ja_spec`);
/// `jp` maps character-table keys to Japanese names, `custom` mainland
/// names to Japanese names.
pub fn build_cn_to_ja(cn: &Vec<CharEntry>, jp: &StrMap, custom: &StrMap) -> (r: StrMap)
    ensures
        r@ == cn_to_ja_spec(cn@.map_values(|e: CharEntry| char_entry_view(e)), jp@, custom@),
{
    let ghost cv = cn@.map_values(|e: CharEntry| char_entry_view(e));
    let mut out = StrMap::new();
    let n = cn.len();
    assert(cv.take(0) =~= Seq::<(Seq<char>, bool, Option<Seq<char>>)>::empty());
    for i in 0..n
        invariant
            n == cn@.len(),
            cv == cn@.map_values(|e: CharEntry| char_entry_view(e)),
            out@ == cn_to_ja_spec(cv.take(i as int), jp@, custom@),
    {
        assert(cv.take(i + 1).drop_last() =~= cv.take(i as int));
        assert(cv.take(i + 1).last() == cv[i as int]);
        let e = &cn[i];
        if is_char_key(e.key.as_str()) && !e.not_obtainable {
            match &e.name {
                Some(cn_name) => {
                    let ja = match jp.get(e.key.as_str()) {
                        Some(j) => Some(j),
                        None => custom.get(cn_name.as_str()),
                    };
                    match ja {
                        Some(j) => {
                            out.insert(cn_name.clone(), j.clone());
                        },
                        None => {},
                    }
                },
                None => {},
            }
        }
    }
    assert(cv.take(n as int) =~= cv);
    out
}


/// The Japanese name of a profession id, or "不明" (unknown).
pub fn job_ja(profession: &str) -> (r: &'static str)
    ensures
        r@ == match crate::fk_kill_calc::tags::profession_tag(profession@) {
            Some(j) => j,
            None => "不明"@,
        },
{
    match crate::fk_kill_calc::tags::profession_tag_for(profession) {
        Some(j) => j,
        None => "不明",
    }
}

} // verus!
