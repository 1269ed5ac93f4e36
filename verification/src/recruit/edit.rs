//! Editing a recruitment reply: recovering the tags from a reply title and
//! applying the add / replace commands of a follow-up message.
use vstd::prelude::*;
use crate::text::{
    has_sub, list_contains, replace, replace_seq, split, split_seq, split_whitespace, str_eq,
    to_owned, trim, trim_seq, views, words, words_acc, contains, is_ws, lacks, join_seq,
    occurs_at, lemma_replace_absent, lemma_replace_concat,
    lemma_replace_prefix, lemma_words_of_join, lemma_words_split,
};
use super::format::title_spec;
use super::calc::{RecruitData, MAX_TAG_COUNT};
use super::model::tag_order;
use super::model::TagList;

verus! {

/// The tags recovered from a reply title.
pub struct ParsedTitle {
    pub tags: Vec<String>,
    pub is_global: bool,
}

/// Why a set of edit commands was refused.
#[derive(Debug)]
pub enum EditError {
    /// Some command names a tag that the tag list does not know.
    UnknownTags(Vec<String>),
    /// After editing there are more than `MAX_TAG_COUNT` tags.
    TooManyTags(usize),
}

// ---------------------------------------------------------------------------
// Specification
// ---------------------------------------------------------------------------

/// The title with the mainland mark and the tag-count marks removed.
pub open spec fn title_body(title: Seq<char>) -> Seq<char> {
    let s = if has_sub(title, "(大陸版)"@) {
        replace_seq(title, "(大陸版)"@, seq![])
    } else {
        title
    };
    replace_seq(replace_seq(s, "(タグ不足)"@, seq![]), "(タグ過多)"@, seq![])
}

/// The tags of a title, when it has at least one word and every word is a
/// known tag; `is_global` is whether the mainland mark is absent.
pub open spec fn parse_title_spec(tl: TagList, title: Seq<char>) -> Option<(Seq<Seq<char>>, bool)> {
    let tags = words(title_body(title));
    if tags.len() == 0 || exists|i: int| 0 <= i < tags.len() && !tag_order(tl).contains(tags[i]) {
        None
    } else {
        Some((tags, !has_sub(title, "(大陸版)"@)))
    }
}

/// The full name of an abbreviated tag.
pub open spec fn abbreviation(s: Seq<char>) -> Option<Seq<char>> {
    if s == "上エリ"@ {
        Some("上級エリート"@)
    } else if s == "エリ"@ {
        Some("エリート"@)
    } else if s == "COST"@ {
        Some("COST回復"@)
    } else if s == "コスト"@ {
        Some("COST回復"@)
    } else if s == "コスト回復"@ {
        Some("COST回復"@)
    } else {
        None
    }
}

/// What `str::to_uppercase` returns for `s`.
pub uninterp spec fn spec_to_uppercase(s: Seq<char>) -> Seq<char>;

/// A command word as a tag name: without "タイプ", upper-cased, and with an
/// abbreviation expanded.
pub open spec fn tag_of_command(c: Seq<char>) -> Seq<char> {
    let n = spec_to_uppercase(replace_seq(c, "タイプ"@, seq![]));
    match abbreviation(n) {
        Some(full) => full,
        None => n,
    }
}

/// The tag names of one command: its parts around "->" or "→".
pub open spec fn command_tags(c: Seq<char>) -> Seq<Seq<char>> {
    split_seq(replace_seq(c, "→"@, "->"@), "->"@).map_values(|p: Seq<char>| tag_of_command(p))
}

/// A name that is neither blank nor a known tag.
pub open spec fn is_illegal(tl: TagList, t: Seq<char>) -> bool {
    trim_seq(t).len() > 0 && !tag_order(tl).contains(t)
}

/// The names of `ts` that are illegal, in order.
pub open spec fn illegal_tags(tl: TagList, ts: Seq<Seq<char>>) -> Seq<Seq<char>> {
    ts.filter(|t: Seq<char>| is_illegal(tl, t))
}

/// One command applied: a single tag is added; `old -> new` replaces every
/// `old` by `new`; anything longer changes nothing.
pub open spec fn apply_one(tags: Seq<Seq<char>>, ct: Seq<Seq<char>>) -> Seq<Seq<char>> {
    if ct.len() == 1 {
        tags.push(ct[0])
    } else if ct.len() == 2 {
        tags.map_values(|x: Seq<char>| if x == ct[0] { ct[1] } else { x })
    } else {
        tags
    }
}

/// The commands applied in order; the illegal names of the first command
/// that has any, if one does.
pub open spec fn apply_commands(tl: TagList, tags: Seq<Seq<char>>, cmds: Seq<Seq<char>>) -> Result<
    Seq<Seq<char>>,
    Seq<Seq<char>>,
>
    decreases cmds.len(),
{
    if cmds.len() == 0 {
        Ok(tags)
    } else {
        let ct = command_tags(cmds[0]);
        let ill = illegal_tags(tl, ct);
        if ill.len() > 0 {
            Err(ill)
        } else {
            apply_commands(tl, apply_one(tags, ct), cmds.drop_first())
        }
    }
}

/// The first occurrence of each name, in order.
pub open spec fn dedup_seq(s: Seq<Seq<char>>) -> Seq<Seq<char>>
    decreases s.len(),
{
    if s.len() == 0 {
        seq![]
    } else {
        let p = dedup_seq(s.drop_last());
        if p.contains(s.last()) {
            p
        } else {
            p.push(s.last())
        }
    }
}

/// The tags after editing: blank names dropped, then repeats.
pub open spec fn cleaned(tags: Seq<Seq<char>>) -> Seq<Seq<char>> {
    dedup_seq(tags.filter(|t: Seq<char>| trim_seq(t).len() > 0))
}

/// Keeping first occurrences gives each name once, and only names of the
/// input.
pub proof fn lemma_dedup_props(s: Seq<Seq<char>>)
    ensures
        dedup_seq(s).no_duplicates(),
        forall|i: int| 0 <= i < dedup_seq(s).len() ==> s.contains(#[trigger] dedup_seq(s)[i]),
    decreases s.len(),
{
    if s.len() > 0 {
        let d = s.drop_last();
        lemma_dedup_props(d);
        let p = dedup_seq(d);
        assert forall|i: int| 0 <= i < p.len() implies s.contains(#[trigger] p[i]) by {
            assert(d.contains(p[i]));
            let j = choose|j: int| 0 <= j < d.len() && d[j] == p[i];
            assert(s[j] == p[i]);
        }
        if !p.contains(s.last()) {
            crate::text::lemma_push_fresh(p, s.last());
            assert forall|i: int| 0 <= i < p.push(s.last()).len() implies s.contains(
                #[trigger] p.push(s.last())[i],
            ) by {
                if i == p.len() {
                    assert(s[s.len() - 1] == s.last());
                } else {
                    assert(p.push(s.last())[i] == p[i]);
                }
            }
        }
    }
}

/// The edited tags name each tag once and none of them is blank.
pub proof fn lemma_cleaned_tags(tags: Seq<Seq<char>>)
    ensures
        cleaned(tags).no_duplicates(),
        forall|i: int| 0 <= i < cleaned(tags).len() ==> trim_seq(#[trigger] cleaned(tags)[i]).len() > 0,
{
    let p = |t: Seq<char>| trim_seq(t).len() > 0;
    let f = tags.filter(p);
    lemma_dedup_props(f);
    assert forall|i: int| 0 <= i < cleaned(tags).len() implies trim_seq(
        #[trigger] cleaned(tags)[i],
    ).len() > 0 by {
        assert(f.contains(cleaned(tags)[i]));
        let j = choose|j: int| 0 <= j < f.len() && f[j] == cleaned(tags)[i];
        tags.lemma_filter_pred(p, j);
    }
}

/// A mark that does not start the pattern's first occurrence is kept.
proof fn lemma_replace_mark(m: Seq<char>, p: Seq<char>)
    requires
        p.len() > 0,
        m.len() > 0,
        m.len() < p.len() || m.take(p.len() as int) != p,
        lacks(m.drop_first(), p[0]),
    ensures
        replace_seq(m, p, seq![]) == m,
{
    if m.len() >= p.len() {
        lemma_replace_absent(m.drop_first(), p, seq![]);
        assert(seq![m[0]] + m.drop_first() =~= m);
    }
}

/// Each title mark after its opening parenthesis holds no other one.
proof fn lemma_marks()
    ensures
        "(大陸版)"@.len() == 5,
        "(タグ不足)"@.len() == 6,
        "(タグ過多)"@.len() == 6,
        " (大陸版)"@ =~= seq![' '] + "(大陸版)"@,
        "(大陸版)"@[0] == '(',
        "(タグ不足)"@[0] == '(',
        "(タグ過多)"@[0] == '(',
        lacks("(タグ不足)"@.drop_first(), '('),
        lacks("(タグ過多)"@.drop_first(), '('),
        "(タグ不足)"@.take(5) != "(大陸版)"@,
        "(タグ過多)"@.take(5) != "(大陸版)"@,
        "(タグ過多)"@.take(6) != "(タグ不足)"@,
        "(タグ不足)"@[1] != "(大陸版)"@[1],
        "(タグ過多)"@[1] != "(大陸版)"@[1],
        lacks(" "@, '('),
        " "@ =~= seq![' '],
{
    reveal_strlit("(大陸版)");
    reveal_strlit(" (大陸版)");
    reveal_strlit("(タグ不足)");
    reveal_strlit("(タグ過多)");
    reveal_strlit(" ");
    assert("(タグ不足)"@.take(5)[1] != "(大陸版)"@[1]);
    assert("(タグ過多)"@.take(5)[1] != "(大陸版)"@[1]);
    assert("(タグ過多)"@.take(6)[3] != "(タグ不足)"@[3]);
}

/// Replacing in a text that starts with a part holding no occurrence of the
/// pattern keeps that part, when what follows cannot end an occurrence
/// begun in it.
proof fn lemma_replace_clean_prefix(a: Seq<char>, b: Seq<char>, p: Seq<char>, r: Seq<char>)
    requires
        p.len() > 0,
        !has_sub(a, p),
        b.len() == 0 || lacks(p.drop_first(), b[0]),
    ensures
        replace_seq(a + b, p, r) == a + replace_seq(b, p, r),
    decreases a.len(),
{
    let s = a + b;
    let n = p.len() as int;
    if a.len() == 0 {
        assert(s =~= b);
        assert(a + replace_seq(b, p, r) =~= replace_seq(b, p, r));
    } else if s.len() < p.len() {
        assert(b.len() < p.len());
    } else {
        if s.take(n) == p {
            if n <= a.len() {
                assert(a.subrange(0, n) =~= s.take(n));
                assert(occurs_at(a, p, 0));
            } else {
                let k = a.len() as int;
                assert(s[k] == b[0]);
                assert(s.take(n)[k] == s[k]);
                assert(p.drop_first()[k - 1] == p[k]);
            }
        }
        assert(s.drop_first() =~= a.drop_first() + b);
        assert(!has_sub(a.drop_first(), p)) by {
            if has_sub(a.drop_first(), p) {
                let i = choose|i: int| occurs_at(a.drop_first(), p, i);
                assert(a.subrange(i + 1, i + 1 + n) =~= a.drop_first().subrange(i, i + n));
                assert(occurs_at(a, p, i + 1));
            }
        }
        lemma_replace_clean_prefix(a.drop_first(), b, p, r);
        assert(seq![s[0]] + (a.drop_first() + replace_seq(b, p, r)) =~= a + replace_seq(b, p, r));
    }
}

/// Joining two texts without an occurrence of a pattern by a character
/// that the pattern lacks makes none.
proof fn lemma_no_sub_around(a: Seq<char>, c: char, b: Seq<char>, q: Seq<char>)
    requires
        q.len() > 0,
        !has_sub(a, q),
        !has_sub(b, q),
        lacks(q, c),
    ensures
        !has_sub(a + seq![c] + b, q),
{
    let s = a + seq![c] + b;
    let n = q.len() as int;
    assert forall|i: int| !occurs_at(s, q, i) by {
        if occurs_at(s, q, i) {
            if i + n <= a.len() {
                assert(a.subrange(i, i + n) =~= s.subrange(i, i + n));
                assert(occurs_at(a, q, i));
            } else if i > a.len() {
                let i2 = i - a.len() - 1;
                assert(b.subrange(i2, i2 + n) =~= s.subrange(i, i + n));
                assert(occurs_at(b, q, i2));
            } else {
                let k = a.len() - i;
                assert(s.subrange(i, i + n)[k] == s[a.len() as int]);
            }
        }
    }
}

/// Tags joined by spaces hold no occurrence of a pattern that no tag holds
/// and that has no space.
proof fn lemma_join_no_sub(parts: Seq<Seq<char>>, q: Seq<char>)
    requires
        q.len() > 0,
        lacks(q, ' '),
        forall|i: int| 0 <= i < parts.len() ==> !has_sub(#[trigger] parts[i], q),
    ensures
        !has_sub(join_seq(parts, " "@), q),
    decreases parts.len(),
{
    reveal_strlit(" ");
    if parts.len() == 1 {
        assert(!has_sub(parts[0], q));
    } else if parts.len() > 1 {
        let d = parts.drop_last();
        assert forall|i: int| 0 <= i < d.len() implies !has_sub(#[trigger] d[i], q) by {
            assert(d[i] == parts[i]);
        }
        lemma_join_no_sub(d, q);
        assert(!has_sub(parts.last(), q));
        lemma_no_sub_around(join_seq(d, " "@), ' ', parts.last(), q);
        assert(join_seq(d, " "@) + " "@ + parts.last() =~= join_seq(d, " "@) + seq![' '] + parts.last());
    }
}

/// The title marks hold no space, and only their first character is an
/// opening parenthesis.
proof fn lemma_marks_plain()
    ensures
        lacks("(大陸版)"@, ' '),
        lacks("(タグ不足)"@, ' '),
        lacks("(タグ過多)"@, ' '),
        lacks("(大陸版)"@.drop_first(), '('),
        lacks("(大陸版)"@.drop_first(), ' '),
{
    reveal_strlit("(大陸版)");
    reveal_strlit("(タグ不足)");
    reveal_strlit("(タグ過多)");
}

/// The title body of a made title: the joined tags, with a trailing space
/// when the mainland mark was there.
proof fn lemma_title_body(names: Seq<Seq<char>>, is_global: bool, show_tag_loss: bool)
    requires
        !has_sub(join_seq(names, " "@), "(大陸版)"@),
        !has_sub(join_seq(names, " "@), "(タグ不足)"@),
        !has_sub(join_seq(names, " "@), "(タグ過多)"@),
    ensures
        title_body(title_spec(names, is_global, show_tag_loss)) == if is_global {
            join_seq(names, " "@)
        } else {
            join_seq(names, " "@) + " "@
        },
        has_sub(title_spec(names, is_global, show_tag_loss), "(大陸版)"@) == !is_global,
{
    lemma_marks();
    lemma_marks_plain();
    let j = join_seq(names, " "@);
    let p = "(大陸版)"@;
    let q1 = "(タグ不足)"@;
    let q2 = "(タグ過多)"@;
    let m1: Seq<char> = if !is_global {
        " (大陸版)"@
    } else {
        seq![]
    };
    let m2: Seq<char> = if show_tag_loss && names.len() < 5 {
        q1
    } else {
        seq![]
    };
    let m3: Seq<char> = if show_tag_loss && names.len() > 5 {
        q2
    } else {
        seq![]
    };
    let r = m2 + m3;
    let t = title_spec(names, is_global, show_tag_loss);
    assert(t == j + m1 + m2 + m3);
    assert(r == Seq::<char>::empty() || r == q1 || r == q2) by {
        if m2.len() == 0 {
            assert(r =~= m3);
        } else {
            assert(m3.len() == 0);
            assert(r =~= m2);
        }
    }
    // The mark of the tag count survives removing the mainland mark.
    assert(replace_seq(r, p, seq![]) == r) by {
        if r == q1 {
            lemma_replace_mark(q1, p);
        } else if r == q2 {
            lemma_replace_mark(q2, p);
        }
    }
    let jp: Seq<char> = if is_global {
        j
    } else {
        j + " "@
    };
    // Removing the mainland mark.
    let s1 = if has_sub(t, p) {
        replace_seq(t, p, seq![])
    } else {
        t
    };
    if !is_global {
        assert(t =~= j + (seq![' '] + (p + r)));
        let k: int = j.len() as int + 1;
        assert(occurs_at(t, p, k)) by {
            assert(t.subrange(k, k + p.len()) =~= p);
        }
        lemma_replace_clean_prefix(j, seq![' '] + (p + r), p, seq![]);
        lemma_replace_concat(seq![' '], p + r, p, seq![]);
        lemma_replace_prefix(r, p, seq![]);
        assert(s1 =~= jp + r);
    } else {
        assert(t =~= j + r);
        assert forall|i: int| !occurs_at(t, p, i) by {
            if occurs_at(t, p, i) {
                let n = p.len() as int;
                let sub = t.subrange(i, i + n);
                if i + n <= j.len() {
                    assert(j.subrange(i, i + n) =~= sub);
                    assert(occurs_at(j, p, i));
                } else if i < j.len() {
                    let k = j.len() - i;
                    assert(sub[k] == t[j.len() as int]);
                    assert(t[j.len() as int] == r[0]);
                    assert(p.drop_first()[k - 1] == p[k]);
                } else if i == j.len() {
                    assert(sub[1] == r[1]);
                } else {
                    assert(sub[0] == t[i]);
                    assert(t[i] == r.drop_first()[i - j.len() - 1]);
                }
            }
        }
        assert(s1 =~= jp + r);
    }
    assert(!has_sub(jp, q1) && !has_sub(jp, q2)) by {
        if !is_global {
            assert(!has_sub(Seq::<char>::empty(), q1));
            assert(!has_sub(Seq::<char>::empty(), q2));
            lemma_no_sub_around(j, ' ', seq![], q1);
            lemma_no_sub_around(j, ' ', seq![], q2);
            assert(j + seq![' '] + Seq::<char>::empty() =~= jp);
        }
    }
    // Removing the tag-count marks.
    lemma_replace_clean_prefix(jp, r, q1, seq![]);
    let r2 = replace_seq(r, q1, seq![]);
    assert(r2 == Seq::<char>::empty() || r2 == q2) by {
        if r == q1 {
            lemma_replace_prefix(seq![], q1, seq![]);
            assert(q1 + Seq::<char>::empty() =~= q1);
        } else if r == q2 {
            lemma_replace_mark(q2, q1);
        }
    }
    lemma_replace_clean_prefix(jp, r2, q2, seq![]);
    assert(replace_seq(r2, q2, seq![]) =~= Seq::<char>::empty()) by {
        if r2 == q2 {
            lemma_replace_prefix(seq![], q2, seq![]);
            assert(q2 + Seq::<char>::empty() =~= q2);
        }
    }
    assert(title_body(t) =~= jp);
}

/// A title made by `make_title` from known tags (none empty, none holding
/// whitespace or one of the three title marks) parses back to those tags
/// and to the same server, whatever marks of the tag count it carries.
pub proof fn lemma_title_round_trip(tl: TagList, names: Seq<Seq<char>>, is_global: bool, show_tag_loss: bool)
    requires
        names.len() > 0,
        forall|i: int| 0 <= i < names.len() ==> (#[trigger] names[i]).len() > 0,
        forall|i: int, j: int| 0 <= i < names.len() && 0 <= j < names[i].len() ==> !is_ws(#[trigger] names[i][j]),
        forall|i: int| 0 <= i < names.len() ==> !has_sub(#[trigger] names[i], "(大陸版)"@),
        forall|i: int| 0 <= i < names.len() ==> !has_sub(#[trigger] names[i], "(タグ不足)"@),
        forall|i: int| 0 <= i < names.len() ==> !has_sub(#[trigger] names[i], "(タグ過多)"@),
        forall|i: int| 0 <= i < names.len() ==> tag_order(tl).contains(#[trigger] names[i]),
    ensures
        parse_title_spec(tl, title_spec(names, is_global, show_tag_loss)) == Some((names, is_global)),
{
    lemma_marks();
    lemma_marks_plain();
    lemma_join_no_sub(names, "(大陸版)"@);
    lemma_join_no_sub(names, "(タグ不足)"@);
    lemma_join_no_sub(names, "(タグ過多)"@);
    lemma_title_body(names, is_global, show_tag_loss);
    lemma_words_of_join(names);
    let j = join_seq(names, " "@);
    if !is_global {
        assert(j + " "@ =~= j + seq![' '] + Seq::<char>::empty());
        reveal_strlit(" ");
        assert(is_ws(' '));
        lemma_words_split(j, ' ', seq![], seq![]);
        assert(words_acc(Seq::<char>::empty(), seq![]) =~= Seq::<Seq<char>>::empty());
        assert(words(j + " "@) =~= words(j));
    }
    let tags = words(title_body(title_spec(names, is_global, show_tag_loss)));
    assert(tags == names);
}

// ---------------------------------------------------------------------------
// Implementation
// ---------------------------------------------------------------------------

/// Recovers the tags of a reply title: the mainland mark `(大陸版)` gives
/// `is_global == false`, the tag-count marks are dropped, and the rest is
/// split at whitespace. `None` when no word is left or a word is not a
/// known tag.
pub fn parse_title(data: &RecruitData, title: &str) -> (r: Option<ParsedTitle>)
    ensures
        match parse_title_spec(data.tags(), title@) {
            None => r is None,
            Some((tags, g)) => r matches Some(p) && views(p.tags@) == tags && p.is_global == g,
        },
{
    proof {
        reveal_strlit("(大陸版)");
        reveal_strlit("(タグ不足)");
        reveal_strlit("(タグ過多)");
        reveal_strlit("");
        assert(""@ =~= Seq::<char>::empty());
    }
    let mut s = to_owned(title);
    let is_global = if contains(s.as_str(), "(大陸版)") {
        s = replace(s.as_str(), "(大陸版)", "");
        false
    } else {
        true
    };
    s = replace(s.as_str(), "(タグ不足)", "");
    s = replace(s.as_str(), "(タグ過多)", "");
    let tags = split_whitespace(s.as_str());
    let ghost tv = views(tags@);
    assert(tv == words(title_body(title@)));
    if tags.len() == 0 {
        return None;
    }
    let n = tags.len();
    for i in 0..n
        invariant
            n == tags@.len(),
            tv == views(tags@),
            tv == words(title_body(title@)),
            forall|j: int| 0 <= j < i ==> tag_order(data.tags()).contains(#[trigger] tv[j]),
    {
        if !data.is_known_tag(tags[i].as_str()) {
            assert(!tag_order(data.tags()).contains(tv[i as int]));
            return None;
        }
    }
    Some(ParsedTitle { tags, is_global })
}

/// The full name of an abbreviated tag, if `s` is one.
fn expand_abbreviation(s: &str) -> (r: Option<String>)
    ensures
        match abbreviation(s@) {
            None => r is None,
            Some(full) => r matches Some(x) && x@ == full,
        },
{
    proof {
        reveal_strlit("上エリ");
        reveal_strlit("上級エリート");
        reveal_strlit("エリ");
        reveal_strlit("エリート");
        reveal_strlit("COST");
        reveal_strlit("COST回復");
        reveal_strlit("コスト");
        reveal_strlit("コスト回復");
    }
    if str_eq(s, "上エリ") {
        Some(to_owned("上級エリート"))
    } else if str_eq(s, "エリ") {
        Some(to_owned("エリート"))
    } else if str_eq(s, "COST") {
        Some(to_owned("COST回復"))
    } else if str_eq(s, "コスト") {
        Some(to_owned("COST回復"))
    } else if str_eq(s, "コスト回復") {
        Some(to_owned("COST回復"))
    } else {
        None
    }
}

/// `str::to_uppercase`: the text with each character upper-cased as Unicode
/// defines it. Its result is named by `spec_to_uppercase`.
#[verifier::external_body]
fn to_uppercase(s: &str) -> (r: String)
    ensures
        r@ == spec_to_uppercase(s@),
{
    s.to_uppercase()
}

/// A command word as a tag name (see `tag_of_command`).
fn format_to_tag(command: &str) -> (r: String)
    ensures
        r@ == tag_of_command(command@),
{
    proof {
        reveal_strlit("タイプ");
        reveal_strlit("");
        assert(""@ =~= Seq::<char>::empty());
    }
    let removed = replace(command, "タイプ", "");
    tag_from_upper(to_uppercase(removed.as_str()))
}

/// The tag name of an upper-cased command word: its full name when it is
/// an abbreviation, else the word itself.
pub fn tag_from_upper(normalized: String) -> (r: String)
    ensures
        r@ == match abbreviation(normalized@) {
            Some(full) => full,
            None => normalized@,
        },
{
    match expand_abbreviation(normalized.as_str()) {
        Some(full) => full,
        None => normalized,
    }
}

/// The parts of a command around "->" or "→".
fn split_arrow(command: &str) -> (r: Vec<String>)
    ensures
        views(r@) == split_seq(replace_seq(command@, "→"@, "->"@), "->"@),
{
    proof {
        reveal_strlit("→");
        reveal_strlit("->");
    }
    let replaced = replace(command, "→", "->");
    split(replaced.as_str(), "->")
}

/// The tag names of one command (see `command_tags`).
fn command_tags_of(command: &str) -> (r: Vec<String>)
    ensures
        views(r@) == command_tags(command@),
{
    let parts = split_arrow(command);
    let ghost pv = views(parts@);
    let mut out: Vec<String> = Vec::new();
    let n = parts.len();
    for i in 0..n
        invariant
            n == parts@.len(),
            pv == views(parts@),
            views(out@) == pv.take(i as int).map_values(|p: Seq<char>| tag_of_command(p)),
    {
        let ghost before = views(out@);
        let t = format_to_tag(parts[i].as_str());
        out.push(t);
        assert(views(out@) =~= before.push(tag_of_command(pv[i as int])));
        assert(pv.take(i + 1).map_values(|p: Seq<char>| tag_of_command(p)) =~= pv.take(
            i as int,
        ).map_values(|p: Seq<char>| tag_of_command(p)).push(tag_of_command(pv[i as int])));
    }
    assert(pv.take(n as int) =~= pv);
    out
}

/// The illegal names among `ts`, in order.
fn illegal_of(data: &RecruitData, ts: &Vec<String>) -> (r: Vec<String>)
    ensures
        views(r@) == illegal_tags(data.tags(), views(ts@)),
{
    let ghost tv = views(ts@);
    let ghost tl = data.tags();
    let mut out: Vec<String> = Vec::new();
    let n = ts.len();
    assert(tv.take(0) =~= Seq::<Seq<char>>::empty());
    for i in 0..n
        invariant
            n == ts@.len(),
            tv == views(ts@),
            tl == data.tags(),
            views(out@) == illegal_tags(tl, tv.take(i as int)),
    {
        assert(tv.take(i + 1).drop_last() =~= tv.take(i as int));
        assert(tv.take(i + 1).last() == tv[i as int]);
        proof {
            reveal(Seq::filter);
        }
        let ghost before = views(out@);
        let tr = trim(ts[i].as_str());
        if !is_blank(&tr) && !data.is_known_tag(ts[i].as_str()) {
            out.push(ts[i].clone());
            assert(views(out@) =~= before.push(tv[i as int]));
        }
    }
    assert(tv.take(n as int) =~= tv);
    out
}

/// Whether a string has no characters.
fn is_blank(s: &String) -> (r: bool)
    ensures
        r == (s@.len() == 0),
{
    s.as_str().is_empty()
}


/// One command applied to `tags` (see `apply_one`).
fn apply_one_exec(tags: Vec<String>, ct: &Vec<String>) -> (r: Vec<String>)
    ensures
        views(r@) == apply_one(views(tags@), views(ct@)),
{
    let ghost cv = views(ct@);
    if ct.len() == 1 {
        let mut out = tags;
        let ghost before = views(out@);
        out.push(ct[0].clone());
        assert(views(out@) =~= before.push(cv[0]));
        out
    } else if ct.len() == 2 {
        let ghost tv = views(tags@);
        let ghost f = |x: Seq<char>| if x == cv[0] { cv[1] } else { x };
        let mut out: Vec<String> = Vec::new();
        let n = tags.len();
        for j in 0..n
            invariant
                n == tags@.len(),
                tv == views(tags@),
                cv == views(ct@),
                ct@.len() == 2,
                views(out@) == tv.take(j as int).map_values(
                    |x: Seq<char>| if x == cv[0] { cv[1] } else { x },
                ),
        {
            let ghost before = views(out@);
            let ghost want = if tv[j as int] == cv[0] { cv[1] } else { tv[j as int] };
            if str_eq(tags[j].as_str(), ct[0].as_str()) {
                out.push(ct[1].clone());
            } else {
                out.push(tags[j].clone());
            }
            assert(views(out@) =~= before.push(want));
            assert(tv.take(j + 1).map_values(|x: Seq<char>| if x == cv[0] { cv[1] } else { x })
                =~= tv.take(j as int).map_values(
                |x: Seq<char>| if x == cv[0] { cv[1] } else { x },
            ).push(want));
        }
        assert(tv.take(n as int) =~= tv);
        out
    } else {
        tags
    }
}

/// The strings of `v` that are not blank.
fn drop_blank(v: &Vec<String>) -> (r: Vec<String>)
    ensures
        views(r@) == views(v@).filter(|t: Seq<char>| trim_seq(t).len() > 0),
{
    let ghost vv = views(v@);
    let mut out: Vec<String> = Vec::new();
    let n = v.len();
    assert(vv.take(0) =~= Seq::<Seq<char>>::empty());
    for i in 0..n
        invariant
            n == v@.len(),
            vv == views(v@),
            views(out@) == vv.take(i as int).filter(|t: Seq<char>| trim_seq(t).len() > 0),
    {
        proof {
            reveal(Seq::filter);
        }
        assert(vv.take(i + 1).drop_last() =~= vv.take(i as int));
        assert(vv.take(i + 1).last() == vv[i as int]);
        let ghost before = views(out@);
        let tr = trim(v[i].as_str());
        if !is_blank(&tr) {
            out.push(v[i].clone());
            assert(views(out@) =~= before.push(vv[i as int]));
        }
    }
    assert(vv.take(n as int) =~= vv);
    out
}

/// The first occurrence of each string of `v`, in order.
fn dedup(v: &Vec<String>) -> (r: Vec<String>)
    ensures
        views(r@) == dedup_seq(views(v@)),
{
    let ghost vv = views(v@);
    let mut out: Vec<String> = Vec::new();
    let n = v.len();
    assert(vv.take(0) =~= Seq::<Seq<char>>::empty());
    for i in 0..n
        invariant
            n == v@.len(),
            vv == views(v@),
            views(out@) == dedup_seq(vv.take(i as int)),
    {
        assert(vv.take(i + 1).drop_last() =~= vv.take(i as int));
        assert(vv.take(i + 1).last() == vv[i as int]);
        let ghost before = views(out@);
        if !list_contains(&out, v[i].as_str()) {
            out.push(v[i].clone());
            assert(views(out@) =~= before.push(vv[i as int]));
        }
    }
    assert(vv.take(n as int) =~= vv);
    out
}

/// Applies the whitespace-separated commands of `command_text` to
/// `existing`, in order: a command is one tag name, which is added, or
/// `old->new` (or `old→new`), which replaces every `old` by `new`; a name
/// loses "タイプ", is upper-cased and has its abbreviation expanded. Longer
/// commands change nothing. Then blank names and repeats are dropped.
/// Refused with the offending names when a command holds a name that is
/// neither blank nor a known tag, and with the count when more than
/// `MAX_TAG_COUNT` tags remain.
pub fn apply_edit_commands(data: &RecruitData, existing: &[String], command_text: &str) -> (r:
    Result<Vec<String>, EditError>)
    ensures
        match apply_commands(data.tags(), views(existing@), words(command_text@)) {
            Err(ill) => r matches Err(EditError::UnknownTags(v)) && views(v@) == ill,
            Ok(tags) => if cleaned(tags).len() > MAX_TAG_COUNT {
                r matches Err(EditError::TooManyTags(n)) && n == cleaned(tags).len()
            } else {
                r matches Ok(v) && views(v@) == cleaned(tags)
            },
        },
{
    let ghost tl = data.tags();
    let ghost ev = views(existing@);
    let mut result_tags: Vec<String> = Vec::new();
    let m = existing.len();
    for i in 0..m
        invariant
            m == existing@.len(),
            ev == views(existing@),
            views(result_tags@) == ev.take(i as int),
    {
        let ghost before = views(result_tags@);
        result_tags.push(existing[i].clone());
        assert(views(result_tags@) =~= before.push(ev[i as int]));
        assert(views(result_tags@) =~= ev.take(i + 1));
    }
    assert(ev.take(m as int) =~= ev);
    let cmds = split_whitespace(command_text);
    let ghost cv = views(cmds@);
    let n = cmds.len();
    assert(cv.skip(0) =~= cv);
    for i in 0..n
        invariant
            n == cmds@.len(),
            cv == views(cmds@),
            cv == words(command_text@),
            ev == views(existing@),
            tl == data.tags(),
            apply_commands(tl, ev, cv) == apply_commands(tl, views(result_tags@), cv.skip(i as int)),
    {
        let ct = command_tags_of(cmds[i].as_str());
        let illegal = illegal_of(data, &ct);
        assert(cv.skip(i as int)[0] == cv[i as int]);
        assert(cv.skip(i as int).drop_first() =~= cv.skip(i + 1));
        if illegal.len() > 0 {
            return Err(EditError::UnknownTags(illegal));
        }
        result_tags = apply_one_exec(result_tags, &ct);
    }
    assert(cv.skip(n as int) =~= Seq::<Seq<char>>::empty());
    let kept = drop_blank(&result_tags);
    let deduped = dedup(&kept);
    if deduped.len() > MAX_TAG_COUNT {
        Err(EditError::TooManyTags(deduped.len()))
    } else {
        Ok(deduped)
    }
}

} // verus!
