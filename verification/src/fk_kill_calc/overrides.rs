//! Manual corrections of the frame-kill catalog, by operator id and skill
//! (as the sheet writes it). Each skill may have several variants (a skill
//! whose multiplier or damage type depends on the situation); a field a
//! variant leaves out keeps the value taken from the game data.
use vstd::prelude::*;
use crate::text::str_eq;
use super::dto::DamageType;

verus! {

/// One variant of a skill. Numbers are of the caller's type `N`.
#[derive(Debug)]
pub struct OverrideVariant<N> {
    /// The variant's label ("300%", "物理", ...).
    pub label: Option<String>,
    pub multiplier: Option<N>,
    pub self_atk_pct: Option<N>,
    pub hits: Option<u32>,
    pub damage_type: Option<DamageType>,
    /// A remark to show.
    pub note: Option<String>,
}

/// A variant as the specifications see it.
pub struct OverrideVariantV<N> {
    pub label: Option<Seq<char>>,
    pub multiplier: Option<N>,
    pub self_atk_pct: Option<N>,
    pub hits: Option<u32>,
    pub damage_type: Option<DamageType>,
    pub note: Option<Seq<char>>,
}

/// A present string's characters.
pub open spec fn opt_chars(o: Option<String>) -> Option<Seq<char>> {
    match o {
        Some(s) => Some(s@),
        None => None,
    }
}

impl<N> View for OverrideVariant<N> {
    type V = OverrideVariantV<N>;

    open spec fn view(&self) -> OverrideVariantV<N> {
        OverrideVariantV {
            label: opt_chars(self.label),
            multiplier: self.multiplier,
            self_atk_pct: self.self_atk_pct,
            hits: self.hits,
            damage_type: self.damage_type,
            note: opt_chars(self.note),
        }
    }
}

/// A skill's variants as the specifications see them.
pub open spec fn variant_views<N>(v: Seq<OverrideVariant<N>>) -> Seq<OverrideVariantV<N>> {
    v.map_values(|x: OverrideVariant<N>| x@)
}

/// One operator's corrections: skill to variants.
pub type SkillOverrides<N> = Vec<(String, Vec<OverrideVariant<N>>)>;

/// One operator's corrections as the specifications see them.
pub open spec fn skill_views<N>(s: Seq<(String, Vec<OverrideVariant<N>>)>) -> Seq<
    (Seq<char>, Seq<OverrideVariantV<N>>),
> {
    s.map_values(|e: (String, Vec<OverrideVariant<N>>)| (e.0@, variant_views(e.1@)))
}

/// The first entry with key `k`.
pub open spec fn first_entry<V>(s: Seq<(Seq<char>, V)>, k: Seq<char>) -> Option<V>
    decreases s.len(),
{
    if s.len() == 0 {
        None
    } else if s[0].0 == k {
        Some(s[0].1)
    } else {
        first_entry(s.drop_first(), k)
    }
}

/// The variants of an operator's skill, if it is corrected.
pub open spec fn variants_spec<N>(
    map: Seq<(Seq<char>, Seq<(Seq<char>, Seq<OverrideVariantV<N>>)>)>,
    op_id: Seq<char>,
    skill_num: Seq<char>,
) -> Option<Seq<OverrideVariantV<N>>> {
    match first_entry(map, op_id) {
        Some(by_skill) => first_entry(by_skill, skill_num),
        None => None,
    }
}

/// Every (operator id, skill) that is corrected, in order.
pub open spec fn all_keys_spec<N>(map: Seq<(Seq<char>, Seq<(Seq<char>, Seq<OverrideVariantV<N>>)>)>) -> Seq<
    (Seq<char>, Seq<char>),
>
    decreases map.len(),
{
    if map.len() == 0 {
        seq![]
    } else {
        let last = map.last();
        all_keys_spec(map.drop_last()) + last.1.map_values(
            |e: (Seq<char>, Seq<OverrideVariantV<N>>)| (last.0, e.0),
        )
    }
}

/// The corrections: operator id to (skill to variants), in file order.
pub struct Overrides<N> {
    map: Vec<(String, SkillOverrides<N>)>,
}

impl<N> View for Overrides<N> {
    type V = Seq<(Seq<char>, Seq<(Seq<char>, Seq<OverrideVariantV<N>>)>)>;

    closed spec fn view(&self) -> Seq<(Seq<char>, Seq<(Seq<char>, Seq<OverrideVariantV<N>>)>)> {
        self.map@.map_values(|e: (String, SkillOverrides<N>)| (e.0@, skill_views(e.1@)))
    }
}

impl<N> Overrides<N> {
    /// The corrections of `map`.
    pub fn new(map: Vec<(String, SkillOverrides<N>)>) -> (r: Overrides<N>)
        ensures
            r@ == map@.map_values(|e: (String, SkillOverrides<N>)| (e.0@, skill_views(e.1@))),
    {
        Overrides { map }
    }

    /// No corrections.
    pub fn empty_for_test() -> (r: Overrides<N>)
        ensures
            r@.len() == 0,
    {
        Overrides { map: Vec::new() }
    }

    /// The variants of an operator's skill, if it is corrected.
    pub fn variants_for(&self, operator_id: &str, skill_num: &str) -> (r: Option<&Vec<OverrideVariant<N>>>)
        ensures
            match variants_spec(self@, operator_id@, skill_num@) {
                Some(vs) => r matches Some(v) && variant_views(v@) == vs,
                None => r is None,
            },
    {
        let ghost m = self@;
        let n = self.map.len();
        let mut i: usize = 0;
        assert(m.skip(0) =~= m);
        while i < n
            invariant
                n == self.map@.len(),
                i <= n,
                m == self@,
                first_entry(m, operator_id@) == first_entry(m.skip(i as int), operator_id@),
            decreases n - i,
        {
            assert(m.skip(i as int)[0] == m[i as int]);
            assert(m.skip(i as int).drop_first() =~= m.skip(i + 1));
            if str_eq(self.map[i].0.as_str(), operator_id) {
                let by_skill = &self.map[i].1;
                let ghost s = skill_views(by_skill@);
                assert(first_entry(m, operator_id@) == Some(s));
                let k = by_skill.len();
                let mut j: usize = 0;
                assert(s.skip(0) =~= s);
                while j < k
                    invariant
                        k == by_skill@.len(),
                        j <= k,
                        s == skill_views(by_skill@),
                        m == self@,
                        first_entry(s, skill_num@) == first_entry(s.skip(j as int), skill_num@),
                        variants_spec(m, operator_id@, skill_num@) == first_entry(s, skill_num@),
                    decreases k - j,
                {
                    assert(s.skip(j as int)[0] == s[j as int]);
                    assert(s.skip(j as int).drop_first() =~= s.skip(j + 1));
                    if str_eq(by_skill[j].0.as_str(), skill_num) {
                        assert(s[j as int] == (by_skill@[j as int].0@, variant_views(by_skill@[j as int].1@)));
                        assert(first_entry(s.skip(j as int), skill_num@) == Some(s[j as int].1));
                        return Some(&by_skill[j].1);
                    }
                    j = j + 1;
                }
                assert(s.skip(k as int).len() == 0);
                return None;
            }
            i = i + 1;
        }
        assert(m.skip(n as int).len() == 0);
        None
    }

    /// Every (operator id, skill) that is corrected, in order.
    pub fn all_keys(&self) -> (r: Vec<(String, String)>)
        ensures
            r@.map_values(|k: (String, String)| (k.0@, k.1@)) == all_keys_spec(self@),
    {
        let ghost m = self@;
        let mut out: Vec<(String, String)> = Vec::new();
        let n = self.map.len();
        assert(m.take(0) =~= Seq::<(Seq<char>, Seq<(Seq<char>, Seq<OverrideVariantV<N>>)>)>::empty());
        for i in 0..n
            invariant
                n == self.map@.len(),
                m == self@,
                out@.map_values(|k: (String, String)| (k.0@, k.1@)) == all_keys_spec(m.take(i as int)),
        {
            assert(m.take(i + 1).drop_last() =~= m.take(i as int));
            assert(m.take(i + 1).last() == m[i as int]);
            let ghost before = out@.map_values(|k: (String, String)| (k.0@, k.1@));
            let by_skill = &self.map[i].1;
            let ghost s = skill_views(by_skill@);
            let ghost add = s.map_values(|e: (Seq<char>, Seq<OverrideVariantV<N>>)| (m[i as int].0, e.0));
            let k = by_skill.len();
            for j in 0..k
                invariant
                    k == by_skill@.len(),
                    i < n,
                    n == self.map@.len(),
                    s == skill_views(by_skill@),
                    add == s.map_values(|e: (Seq<char>, Seq<OverrideVariantV<N>>)| (m[i as int].0, e.0)),
                    m[i as int].0 == self.map@[i as int].0@,
                    out@.map_values(|k: (String, String)| (k.0@, k.1@)) == before + add.take(j as int),
            {
                assert(add[j as int] == (m[i as int].0, by_skill@[j as int].0@));
                let ghost ob = out@;
                let pair = (self.map[i].0.clone(), by_skill[j].0.clone());
                assert((pair.0@, pair.1@) == add[j as int]);
                out.push(pair);
                assert(out@.map_values(|k: (String, String)| (k.0@, k.1@)) =~= ob.map_values(
                    |k: (String, String)| (k.0@, k.1@),
                ).push(add[j as int]));
                assert(add.take(j + 1) =~= add.take(j as int).push(add[j as int]));
                assert(out@.map_values(|k: (String, String)| (k.0@, k.1@)) =~= before + add.take(j + 1));
            }
            assert(add.take(k as int) =~= add);
        }
        assert(m.take(n as int) =~= m);
        out
    }
}

} // verus!
