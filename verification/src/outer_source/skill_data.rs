//! Skill ids to skill names and finished descriptions.
use vstd::prelude::*;

verus! {

/// One skill: its name and its finished description ("" when it has none).
#[derive(Clone, Debug)]
pub struct SkillItem {
    pub name: String,
    pub description: String,
}

/// The SP data of a skill level as the description header needs it.
pub struct RawSpData {
    pub sp_type: String,
    pub init_sp: i64,
    pub sp_cost: i64,
}

/// The item of the last setting for `id`, if any.
pub open spec fn lookup_item(s: Seq<(Seq<char>, (Seq<char>, Seq<char>))>, id: Seq<char>) -> Option<
    (Seq<char>, Seq<char>),
>
    decreases s.len(),
{
    if s.len() == 0 {
        None
    } else if s.last().0 == id {
        Some(s.last().1)
    } else {
        lookup_item(s.drop_last(), id)
    }
}

/// The name of a skill, or "Missing".
pub open spec fn skill_name_of(s: Seq<(Seq<char>, (Seq<char>, Seq<char>))>, id: Seq<char>) -> Seq<char> {
    match lookup_item(s, id) {
        Some(item) => item.0,
        None => "Missing"@,
    }
}

/// Skill ids to skills; setting an id again replaces its skill.
pub struct SkillData {
    id_to_item: Vec<(String, SkillItem)>,
}

impl View for SkillData {
    type V = Seq<(Seq<char>, (Seq<char>, Seq<char>))>;

    /// Every setting (id, (name, description)), in order.
    closed spec fn view(&self) -> Seq<(Seq<char>, (Seq<char>, Seq<char>))> {
        self.id_to_item@.map_values(
            |p: (String, SkillItem)| (p.0@, (p.1.name@, p.1.description@)),
        )
    }
}

impl SkillData {
    /// No skills.
    pub fn new() -> (r: SkillData)
        ensures
            r@ == Seq::<(Seq<char>, (Seq<char>, Seq<char>))>::empty(),
    {
        let r = SkillData { id_to_item: Vec::new() };
        assert(r@ =~= Seq::<(Seq<char>, (Seq<char>, Seq<char>))>::empty());
        r
    }

    /// No skills.
    pub fn empty_for_test() -> (r: SkillData)
        ensures
            r@ == Seq::<(Seq<char>, (Seq<char>, Seq<char>))>::empty(),
    {
        let r = SkillData { id_to_item: Vec::new() };
        assert(r@ =~= Seq::<(Seq<char>, (Seq<char>, Seq<char>))>::empty());
        r
    }

    /// Sets the skill of `id`.
    pub fn insert(&mut self, id: String, item: SkillItem)
        ensures
            final(self)@ == old(self)@.push((id@, (item.name@, item.description@))),
    {
        let ghost before = self@;
        let ghost v = (id@, (item.name@, item.description@));
        self.id_to_item.push((id, item));
        assert(self@ =~= before.push(v));
    }

    /// The skill of `id`, if it is set.
    fn find(&self, id: &str) -> (r: Option<&SkillItem>)
        ensures
            match lookup_item(self@, id@) {
                None => r is None,
                Some(it) => r matches Some(x) && x.name@ == it.0 && x.description@ == it.1,
            },
    {
        let mut i = self.id_to_item.len();
        assert(self@.take(i as int) =~= self@);
        while i > 0
            invariant
                i <= self.id_to_item@.len(),
                lookup_item(self@, id@) == lookup_item(self@.take(i as int), id@),
            decreases i,
        {
            let ghost t = self@.take(i as int);
            assert(t.drop_last() =~= self@.take(i - 1));
            let e = &self.id_to_item[i - 1];
            assert(t.last() == (e.0@, (e.1.name@, e.1.description@)));
            if crate::text::str_eq(e.0.as_str(), id) {
                return Some(&e.1);
            }
            i = i - 1;
        }
        None
    }

    /// The name of a skill, or "Missing".
    pub fn get_str(&self, id: &str) -> (r: &str)
        ensures
            r@ == skill_name_of(self@, id@),
    {
        match self.find(id) {
            Some(item) => item.name.as_str(),
            None => "Missing",
        }
    }

    /// The description of a skill, or "" when it is not set.
    pub fn get_description(&self, id: &str) -> (r: &str)
        ensures
            r@ == match lookup_item(self@, id@) {
                Some(item) => item.1,
                None => ""@,
            },
    {
        match self.find(id) {
            Some(item) => item.description.as_str(),
            None => "",
        }
    }
}

} // verus!
