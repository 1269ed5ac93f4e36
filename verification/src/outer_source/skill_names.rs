//! Skill ids to skill names.
use vstd::prelude::*;
use super::names::{lookup, StrMap};

verus! {

/// What the skill tables hold for one skill id: whether the Japanese table
/// has the id, and the name of the first level in each table.
pub struct SkillTableEntry {
    pub id: String,
    pub in_jp: bool,
    pub jp_name: Option<String>,
    pub cn_name: Option<String>,
}

/// The name of a skill: from the Japanese table when it has the skill,
/// else from the mainland table.
pub open spec fn entry_name(e: SkillTableEntry) -> Option<Seq<char>> {
    let n = if e.in_jp {
        e.jp_name
    } else {
        e.cn_name
    };
    match n {
        Some(s) => Some(s@),
        None => None,
    }
}

/// The (id, name) settings of the entries that have a name, in order.
pub open spec fn skill_names_spec(es: Seq<SkillTableEntry>) -> Seq<(Seq<char>, Seq<char>)>
    decreases es.len(),
{
    if es.len() == 0 {
        seq![]
    } else {
        let p = skill_names_spec(es.drop_last());
        match entry_name(es.last()) {
            Some(n) => p.push((es.last().id@, n)),
            None => p,
        }
    }
}

/// Skill ids to skill names.
pub struct SkillNames {
    id_to_name: StrMap,
}

impl SkillNames {
    /// The name table.
    pub closed spec fn table(&self) -> Seq<(Seq<char>, Seq<char>)> {
        self.id_to_name@
    }

    /// Names read from the skill tables (see `skill_names_spec`).
    pub fn from_entries(es: &Vec<SkillTableEntry>) -> (r: SkillNames)
        ensures
            r.table() == skill_names_spec(es@),
    {
        let mut m = StrMap::new();
        let n = es.len();
        assert(es@.take(0) =~= Seq::<SkillTableEntry>::empty());
        for i in 0..n
            invariant
                n == es@.len(),
                m@ == skill_names_spec(es@.take(i as int)),
        {
            assert(es@.take(i + 1).drop_last() =~= es@.take(i as int));
            assert(es@.take(i + 1).last() == es@[i as int]);
            let e = &es[i];
            let name = if e.in_jp {
                &e.jp_name
            } else {
                &e.cn_name
            };
            match name {
                Some(s) => {
                    m.insert(e.id.clone(), s.clone());
                },
                None => {},
            }
        }
        assert(es@.take(n as int) =~= es@);
        SkillNames { id_to_name: m }
    }

    /// The name of a skill, or "Missing".
    pub fn get_str(&self, id: &str) -> (r: &str)
        ensures
            r@ == match lookup(self.table(), id@) {
                Some(n) => n,
                None => "Missing"@,
            },
    {
        match self.id_to_name.get(id) {
            Some(n) => n.as_str(),
            None => "Missing",
        }
    }

    /// Names with an empty table.
    pub fn empty_for_test() -> (r: SkillNames)
        ensures
            r.table() == Seq::<(Seq<char>, Seq<char>)>::empty(),
    {
        SkillNames { id_to_name: StrMap::new() }
    }
}

} // verus!
