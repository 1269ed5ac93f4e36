//! The text parts of a skill description: removing highlight tags, fixing
//! literal sequences, cleaning placeholder names, and the header with the
//! activation type and SP values.
use vstd::prelude::*;
use crate::recruit::matcher::{regex_replace_all, spec_regex_replace_all};
use crate::text::{chars_of, decimal, decimal_string, push_char, push_str, replace, replace_seq, str_eq, to_owned};
use super::skill_data::RawSpData;
use crate::recruit::format::chars_between;

verus! {

/// The opening highlight tags (`<@ba...>`, `<$ba...>`, `<@ba.dt...>`).
pub open spec fn tag_pattern() -> Seq<char> {
    "<[@$]ba\\.?(dt\\.)?[a-z0-9]+>"@
}

/// A description without highlight tags: the opening tags removed with
/// the regular-expression engine, then every closing `</>` removed.
pub open spec fn stripped(s: Seq<char>) -> Option<Seq<char>> {
    match spec_regex_replace_all(tag_pattern(), s, seq![]) {
        Some(t) => Some(replace_seq(t, "</>"@, seq![])),
        None => None,
    }
}

/// Removes the highlight tags, keeping the text inside them. `None` when
/// the regular-expression engine fails.
pub fn strip_tags(s: &str) -> (r: Option<String>)
    ensures
        match stripped(s@) {
            Some(t) => r matches Some(x) && x@ == t,
            None => r is None,
        },
{
    proof {
        reveal_strlit("");
        reveal_strlit("</>");
        assert(""@ =~= Seq::<char>::empty());
    }
    match regex_replace_all("<[@$]ba\\.?(dt\\.)?[a-z0-9]+>", s, "") {
        Some(t) => Some(replace(t.as_str(), "</>", "")),
        None => None,
    }
}

/// The literal fixes: `-{-` to `{`, `{-` to `-{`, the two characters `\n`
/// to a newline, `AOE` to `aoe`, in that order.
pub open spec fn fixed_up(s: Seq<char>) -> Seq<char> {
    replace_seq(
        replace_seq(replace_seq(replace_seq(s, "-{-"@, "{"@), "{-"@, "-{"@), "\\n"@, "\n"@),
        "AOE"@,
        "aoe"@,
    )
}

/// Applies the literal fixes (see `fixed_up`).
pub fn apply_literal_fixups(s: &str) -> (r: String)
    ensures
        r@ == fixed_up(s@),
{
    proof {
        reveal_strlit("-{-");
        reveal_strlit("{-");
        reveal_strlit("\\n");
        reveal_strlit("AOE");
    }
    let a = replace(s, "-{-", "{");
    let b = replace(a.as_str(), "{-", "-{");
    let c = replace(b.as_str(), "\\n", "\n");
    replace(c.as_str(), "AOE", "aoe")
}

/// A character that placeholder names drop.
pub open spec fn is_name_noise(c: char) -> bool {
    c == '[' || c == ']' || c == '.'
}

/// A placeholder name without `[`, `]` and `.`.
pub open spec fn cleaned_name(s: Seq<char>) -> Seq<char> {
    s.filter(|c: char| !is_name_noise(c))
}

/// Removes `[`, `]` and `.` from a placeholder name.
pub fn clean_field_name(s: &str) -> (r: String)
    ensures
        r@ == cleaned_name(s@),
{
    let cs = chars_of(s);
    let mut out = String::new();
    let n = cs.len();
    assert(cs@.take(0) =~= Seq::<char>::empty());
    for i in 0..n
        invariant
            n == cs@.len(),
            out@ == cs@.take(i as int).filter(|c: char| !is_name_noise(c)),
    {
        proof {
            reveal(Seq::filter);
        }
        assert(cs@.take(i + 1).drop_last() =~= cs@.take(i as int));
        assert(cs@.take(i + 1).last() == cs@[i as int]);
        let c = cs[i];
        if !(c == '[' || c == ']' || c == '.') {
            push_char(&mut out, c);
        }
    }
    assert(cs@.take(n as int) =~= cs@);
    out
}

/// The Japanese label of an activation type; other types as they are.
pub open spec fn skill_type_text(raw: Seq<char>) -> Seq<char> {
    if raw == "AUTO"@ {
        "自動発動"@
    } else if raw == "MANUAL"@ {
        "手動発動"@
    } else if raw == "PASSIVE"@ {
        "パッシブ"@
    } else {
        raw
    }
}

/// The Japanese label of an SP recovery type; other types as they are.
pub open spec fn sp_type_text(raw: Seq<char>) -> Seq<char> {
    if raw == "INCREASE_WHEN_TAKEN_DAMAGE"@ {
        "被撃回復"@
    } else if raw == "INCREASE_WHEN_ATTACK"@ {
        "攻撃回復"@
    } else if raw == "INCREASE_WITH_TIME"@ {
        "自然回復"@
    } else {
        raw
    }
}

/// The label of an activation type (see `skill_type_text`).
pub fn skill_type_label(raw: &str) -> (r: String)
    ensures
        r@ == skill_type_text(raw@),
{
    if str_eq(raw, "AUTO") {
        to_owned("自動発動")
    } else if str_eq(raw, "MANUAL") {
        to_owned("手動発動")
    } else if str_eq(raw, "PASSIVE") {
        to_owned("パッシブ")
    } else {
        to_owned(raw)
    }
}

/// The label of an SP recovery type (see `sp_type_text`).
pub fn sp_type_label(raw: &str) -> (r: String)
    ensures
        r@ == sp_type_text(raw@),
{
    if str_eq(raw, "INCREASE_WHEN_TAKEN_DAMAGE") {
        to_owned("被撃回復")
    } else if str_eq(raw, "INCREASE_WHEN_ATTACK") {
        to_owned("攻撃回復")
    } else if str_eq(raw, "INCREASE_WITH_TIME") {
        to_owned("自然回復")
    } else {
        to_owned(raw)
    }
}

/// A whole number in decimal, with a minus sign when negative.
pub open spec fn signed_decimal(n: int) -> Seq<char> {
    if n < 0 {
        "-"@ + decimal((-n) as nat)
    } else {
        decimal(n as nat)
    }
}

/// `n` in decimal (see `signed_decimal`).
pub fn int_string(n: i64) -> (r: String)
    ensures
        r@ == signed_decimal(n as int),
{
    if n < 0 {
        proof {
            reveal_strlit("-");
        }
        let m: u64 = (0i128 - (n as i128)) as u64;
        let mut s = to_owned("-");
        let d = decimal_string(m);
        push_str(&mut s, d.as_str());
        s
    } else {
        decimal_string(n as u64)
    }
}

/// A finished description: a header of the activation and SP recovery
/// types (the activation type alone for a passive skill), the duration when
/// given (as ` ⌚{duration}秒`), then for an active skill a line with the
/// initial and needed SP, then the body on its own line.
pub open spec fn framed(
    skill_type: Seq<char>,
    sp_type: Seq<char>,
    init_sp: i64,
    sp_cost: i64,
    duration: Option<Seq<char>>,
    body: Seq<char>,
) -> Seq<char> {
    let passive = skill_type == "PASSIVE"@;
    let h = if passive {
        skill_type_text(skill_type)
    } else {
        sp_type_text(sp_type) + "/"@ + skill_type_text(skill_type)
    };
    let header = match duration {
        Some(d) => h + " ⌚"@ + d + "秒"@,
        None => h,
    };
    let pre = if passive {
        header
    } else {
        header + "\n▶"@ + signed_decimal(init_sp as int) + " ⚡"@ + signed_decimal(sp_cost as int)
    };
    pre + "\n"@ + body
}

/// Puts the header of a skill in front of its rendered body (see `framed`).
pub fn frame_description(skill_type: &str, sp: &RawSpData, duration: Option<&str>, body: &str) -> (r:
    String)
    ensures
        r@ == framed(
            skill_type@,
            sp.sp_type@,
            sp.init_sp,
            sp.sp_cost,
            match duration {
                Some(d) => Some(d@),
                None => None,
            },
            body@,
        ),
{
    let passive = str_eq(skill_type, "PASSIVE");
    let mut header = if passive {
        skill_type_label(skill_type)
    } else {
        let mut h = sp_type_label(sp.sp_type.as_str());
        push_str(&mut h, "/");
        let t = skill_type_label(skill_type);
        push_str(&mut h, t.as_str());
        h
    };
    match duration {
        Some(d) => {
            push_str(&mut header, " ⌚");
            push_str(&mut header, d);
            push_str(&mut header, "秒");
        },
        None => {},
    }
    if !passive {
        push_str(&mut header, "\n▶");
        let a = int_string(sp.init_sp);
        push_str(&mut header, a.as_str());
        push_str(&mut header, " ⚡");
        let b = int_string(sp.sp_cost);
        push_str(&mut header, b.as_str());
    }
    push_str(&mut header, "\n");
    push_str(&mut header, body);
    header
}


/// How the value of a placeholder is written.
#[derive(Debug, Clone, Copy, PartialEq, Eq, Structural)]
pub enum PlaceholderFormat {
    /// As a number; a whole number without a decimal point.
    Number,
    /// As a percentage without decimals.
    Percent0,
    /// As a percentage with one decimal.
    Percent1,
    /// With one decimal.
    Fixed1,
}

/// The first position of `c` in `s`.
pub open spec fn first_index_of(s: Seq<char>, c: char) -> Option<int>
    decreases s.len(),
{
    if s.len() == 0 {
        None
    } else if s[0] == c {
        Some(0)
    } else {
        match first_index_of(s.drop_first(), c) {
            Some(i) => Some(i + 1),
            None => None,
        }
    }
}

/// The format written after a placeholder's colon, when it is a known one.
pub open spec fn format_of(f: Seq<char>) -> Option<PlaceholderFormat> {
    if f == "0"@ {
        Some(PlaceholderFormat::Number)
    } else if f == "0%"@ || f == ".0%"@ {
        Some(PlaceholderFormat::Percent0)
    } else if f == "0.0%"@ {
        Some(PlaceholderFormat::Percent1)
    } else if f == "0.0"@ {
        Some(PlaceholderFormat::Fixed1)
    } else {
        None
    }
}

/// The field name of a placeholder (the text between its braces, before
/// the first colon, cleaned) and how its value is written: as a number when
/// there is no colon, else by the format after it; no format when that one
/// is not known, and the placeholder is then kept as it is.
pub open spec fn placeholder_spec(inner: Seq<char>) -> (Seq<char>, Option<PlaceholderFormat>) {
    match first_index_of(inner, ':') {
        Some(i) => (cleaned_name(inner.take(i)), format_of(inner.skip(i + 1))),
        None => (cleaned_name(inner), Some(PlaceholderFormat::Number)),
    }
}

/// `first_index_of` finds the first occurrence, and nothing when there is
/// none.
proof fn lemma_first_index_of(s: Seq<char>, c: char)
    ensures
        match first_index_of(s, c) {
            Some(i) => 0 <= i < s.len() && s[i] == c && forall|k: int| 0 <= k < i ==> s[k] != c,
            None => forall|k: int| 0 <= k < s.len() ==> s[k] != c,
        },
    decreases s.len(),
{
    if s.len() > 0 {
        lemma_first_index_of(s.drop_first(), c);
        assert forall|k: int| 1 <= k < s.len() implies s[k] == s.drop_first()[k - 1] by {}
    }
}

/// The format after a placeholder's colon (see `format_of`).
fn format_from(f: &str) -> (r: Option<PlaceholderFormat>)
    ensures
        r == format_of(f@),
{
    proof {
        reveal_strlit("0");
        reveal_strlit("0%");
        reveal_strlit(".0%");
        reveal_strlit("0.0%");
        reveal_strlit("0.0");
    }
    if str_eq(f, "0") {
        Some(PlaceholderFormat::Number)
    } else if str_eq(f, "0%") || str_eq(f, ".0%") {
        Some(PlaceholderFormat::Percent0)
    } else if str_eq(f, "0.0%") {
        Some(PlaceholderFormat::Percent1)
    } else if str_eq(f, "0.0") {
        Some(PlaceholderFormat::Fixed1)
    } else {
        None
    }
}

/// Reads a placeholder's inner text (see `placeholder_spec`).
pub fn placeholder_parts(inner: &str) -> (r: (String, Option<PlaceholderFormat>))
    ensures
        (r.0@, r.1) == placeholder_spec(inner@),
{
    let cs = chars_of(inner);
    let n = cs.len();
    let mut i: usize = 0;
    while i < n
        invariant
            n == cs@.len(),
            cs@ == inner@,
            i <= n,
            forall|k: int| 0 <= k < i ==> cs@[k] != ':',
        decreases n - i,
    {
        if cs[i] == ':' {
            let name = chars_between(&cs, 0, i);
            let rest = chars_between(&cs, i + 1, n);
            assert(inner@[i as int] == ':');
            assert(first_index_of(inner@, ':') == Some(i as int)) by {
                lemma_first_index_of(inner@, ':');
                if first_index_of(inner@, ':') != Some(i as int) {
                    match first_index_of(inner@, ':') {
                        Some(j) => {
                            if j < i {
                                assert(cs@[j] != ':');
                            }
                        },
                        None => {},
                    }
                }
            }
            assert(name@ =~= inner@.take(i as int));
            assert(rest@ =~= inner@.skip(i + 1));
            return (clean_field_name(name.as_str()), format_from(rest.as_str()));
        }
        i = i + 1;
    }
    proof {
        lemma_first_index_of(inner@, ':');
    }
    (clean_field_name(inner), Some(PlaceholderFormat::Number))
}

} // verus!
