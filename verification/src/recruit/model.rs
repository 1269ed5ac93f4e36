//! Recruitment data: operators, tag lists and classified tags.
use vstd::prelude::*;
use crate::text::views;

verus! {

/// One recruitable operator.
#[derive(Debug)]
pub struct Operator {
    pub name: String,
    pub job: String,
    pub tags: Vec<String>,
    pub stars: u8,
}

/// The whole operator database: operators available now and those announced
/// for a later date.
#[derive(Debug)]
pub struct OperatorDb {
    pub main: Vec<Operator>,
    pub future: Vec<FutureEntry>,
}

/// Operators that become recruitable on a given date (`yyyymmdd` or `yymmdd`).
#[derive(Debug)]
pub struct FutureEntry {
    pub comment: Option<String>,
    pub yyyymmdd: String,
    pub op_list: Vec<Operator>,
}

/// Tag names grouped by kind.
#[derive(Debug)]
pub struct TagList {
    pub elite_tags: Vec<String>,
    pub job_tags: Vec<String>,
    pub position_tags: Vec<String>,
    pub other_tags: Vec<String>,
}

/// The kind of a tag (position tags count as `Other`).
#[derive(Debug, Clone, Copy, PartialEq, Eq, Structural)]
pub enum TagType {
    Elite,
    Job,
    Other,
}

/// A tag with its kind.
#[derive(Debug)]
pub struct Tag {
    pub name: String,
    pub tag_type: TagType,
}

impl View for Tag {
    type V = (Seq<char>, TagType);

    open spec fn view(&self) -> (Seq<char>, TagType) {
        (self.name@, self.tag_type)
    }
}

/// Every tag name in definition order: job, position, elite, other.
pub open spec fn tag_order(tl: TagList) -> Seq<Seq<char>> {
    views(tl.job_tags@) + views(tl.position_tags@) + views(tl.elite_tags@) + views(tl.other_tags@)
}

/// The kind of the tag called `name`: elite if listed as elite, else job if
/// listed as a job, else other.
pub open spec fn tag_type_spec(tl: TagList, name: Seq<char>) -> TagType {
    if views(tl.elite_tags@).contains(name) {
        TagType::Elite
    } else if views(tl.job_tags@).contains(name) {
        TagType::Job
    } else {
        TagType::Other
    }
}

/// A copy of a list of strings.
pub fn clone_strings(v: &Vec<String>) -> (r: Vec<String>)
    ensures
        r@ == v@,
{
    let mut out: Vec<String> = Vec::new();
    let n = v.len();
    for i in 0..n
        invariant
            n == v@.len(),
            out@ == v@.take(i as int),
    {
        out.push(v[i].clone());
        assert(out@ =~= v@.take(i + 1));
    }
    assert(v@.take(n as int) =~= v@);
    out
}

/// A copy of a tag.
pub fn clone_tag(t: &Tag) -> (r: Tag)
    ensures
        r@ == t@,
{
    Tag { name: t.name.clone(), tag_type: t.tag_type }
}

} // verus!
