//! Recognition of recruitment tags in OCR text, with Japanese, English and
//! Chinese dictionaries and pattern-based corrections.
use vstd::prelude::*;
use crate::text::{
    delimited_in, lemma_push_fresh, lemma_split_acc_delimited,
    list_contains, split, split_seq, str_eq, to_owned, trim, trim_seq, views,
};

verus! {

/// The tags recognised in a text and whether the global server is meant.
pub struct MatchResult {
    /// The recognised tag names, each once.
    pub matches: Vec<String>,
    pub is_global: bool,
}

/// The dictionaries and pattern tables of the recogniser. A dictionary maps
/// a written form to a tag name; a pattern table maps a regular expression
/// to a tag name (or, for `replace`, to its replacement text).
pub struct Matcher {
    pub ja: Vec<(String, String)>,
    pub en: Vec<(String, String)>,
    pub zh: Vec<(String, String)>,
    pub ja_extra: Vec<(String, String)>,
    pub zh_extra: Vec<(String, String)>,
    pub replace: Vec<(String, String)>,
    pub clear: String,
}

/// The entries of a table as pairs of character sequences.
pub open spec fn pairs_view(v: Seq<(String, String)>) -> Seq<(Seq<char>, Seq<char>)> {
    v.map_values(|p: (String, String)| (p.0@, p.1@))
}

/// A `Matcher` as plain values.
pub struct MatcherV {
    pub ja: Seq<(Seq<char>, Seq<char>)>,
    pub en: Seq<(Seq<char>, Seq<char>)>,
    pub zh: Seq<(Seq<char>, Seq<char>)>,
    pub ja_extra: Seq<(Seq<char>, Seq<char>)>,
    pub zh_extra: Seq<(Seq<char>, Seq<char>)>,
    pub replace: Seq<(Seq<char>, Seq<char>)>,
    pub clear: Seq<char>,
}

impl View for Matcher {
    type V = MatcherV;

    open spec fn view(&self) -> MatcherV {
        MatcherV {
            ja: pairs_view(self.ja@),
            en: pairs_view(self.en@),
            zh: pairs_view(self.zh@),
            ja_extra: pairs_view(self.ja_extra@),
            zh_extra: pairs_view(self.zh_extra@),
            replace: pairs_view(self.replace@),
            clear: self.clear@,
        }
    }
}

// ---------------------------------------------------------------------------
// What the regular-expression engine computes
// ---------------------------------------------------------------------------

/// What `fancy_regex::Regex::try_replacen(text, 0, rep)` gives for the
/// regex compiled from `pattern`: `None` when the pattern does not compile
/// or the engine reports an error.
pub uninterp spec fn spec_regex_replace_all(pattern: Seq<char>, text: Seq<char>, rep: Seq<char>) -> Option<Seq<char>>;

/// Where `fancy_regex::Regex::find` finds the first match of the regex
/// compiled from `pattern` in `text` (a byte offset): `None` when there is
/// no match, the pattern does not compile or the engine reports an error.
pub uninterp spec fn spec_regex_find_start(pattern: Seq<char>, text: Seq<char>) -> Option<usize>;

// ---------------------------------------------------------------------------
// Specification
// ---------------------------------------------------------------------------

/// The Japanese pattern table: misread forms of tags, in order of trial.
pub open spec fn ja_extra_table() -> Seq<(Seq<char>, Seq<char>)> {
    seq![
        ("範[围圍囲困匯田]攻[擊撃]"@, "範囲攻撃"@),
        ("(?!上級)(..?)?ー下"@, "エリート"@),
        ("医療...?"@, "医療"@),
        ("上級..ー下"@, "上級エリート"@),
        ("補助...?"@, "補助"@),
        ("狙撃...?"@, "狙撃"@),
        ("前衛...?"@, "前衛"@),
        ("COST(O)?"@, "COST回復"@),
        ("防御."@, "防御"@),
        ("重装...?"@, "重装"@),
        ("上級エリード"@, "上級エリート"@),
        ("エリード"@, "エリート"@),
        ("特殊..?.?"@, "特殊"@),
        ("[35]{2}1t"@, "弱化"@),
        ("、弁】"@, "爆発力"@),
        ("[匠近]距[离離]"@, "近距離"@),
        ("[攴支][扶援]"@, "支援"@),
        ("[術市]師...?"@, "術師"@),
    ]
}

/// The Chinese pattern table.
pub open spec fn zh_extra_table() -> Seq<(Seq<char>, Seq<char>)> {
    seq![
        ("費用回复"@, "COST回復"@),
        ("治疔"@, "治療"@),
    ]
}

/// The corrections of misread characters, applied in order.
pub open spec fn replace_table() -> Seq<(Seq<char>, Seq<char>)> {
    seq![
        ("工"@, "エ"@),
        ("夕"@, "タ"@),
        ("一"@, "ー"@),
        ("卜"@, "ト"@),
        ("り"@, "リ"@),
        ("ブ"@, "プ"@),
        ("カ"@, "力"@),
        ("口"@, "ロ"@),
        ("エ[丿ノ刂]ート"@, "エリート"@),
        ("[于千]员"@, "干员"@),
    ]
}

/// The marks removed from each line: stray punctuation anywhere, and
/// hyphens at the start or end.
pub open spec fn clear_pattern() -> Seq<char> {
    "[．•་.,·・´`‧˙。¸Ⓡ【®:「、]+|^[-]+|[-]+$"@
}


/// The corrections applied in order to one text; `None` when the engine
/// fails on one of them.
pub open spec fn apply_replacements(pairs: Seq<(Seq<char>, Seq<char>)>, s: Seq<char>) -> Option<Seq<char>>
    decreases pairs.len(),
{
    if pairs.len() == 0 {
        Some(s)
    } else {
        match spec_regex_replace_all(pairs[0].0, s, pairs[0].1) {
            None => None,
            Some(t) => apply_replacements(pairs.drop_first(), t),
        }
    }
}

/// One OCR line cleaned: trimmed, stray marks removed, misreadings fixed.
pub open spec fn clean_line(m: MatcherV, line: Seq<char>) -> Option<Seq<char>> {
    match spec_regex_replace_all(m.clear, trim_seq(line), seq![]) {
        None => None,
        Some(c) => apply_replacements(m.replace, c),
    }
}

/// Every line cleaned; `None` when one of them cannot be.
pub open spec fn clean_lines(m: MatcherV, lines: Seq<Seq<char>>) -> Option<Seq<Seq<char>>>
    decreases lines.len(),
{
    if lines.len() == 0 {
        Some(seq![])
    } else {
        match (clean_lines(m, lines.drop_last()), clean_line(m, lines.last())) {
            (Some(p), Some(l)) => Some(p.push(l)),
            _ => None,
        }
    }
}

/// The cleaned lines of an OCR text.
pub open spec fn cleaned_text(m: MatcherV, text: Seq<char>) -> Option<Seq<Seq<char>>> {
    clean_lines(m, split_seq(text, "\n"@))
}

/// `key` is a whole line or a space-separated part of one.
pub open spec fn key_hit(lines: Seq<Seq<char>>, key: Seq<char>) -> bool {
    exists|i: int|
        0 <= i < lines.len() && (lines[i] == key || split_seq(lines[i], " "@).contains(key))
}

/// The regex compiled from `pattern` matches at the start of `s`.
pub open spec fn matches_at_start_spec(pattern: Seq<char>, s: Seq<char>) -> bool {
    spec_regex_find_start(pattern, s) == Some(0usize)
}

/// `pattern` matches at the start of a line or of a space-separated part.
pub open spec fn pattern_hit(lines: Seq<Seq<char>>, pattern: Seq<char>) -> bool {
    exists|i: int|
        0 <= i < lines.len() && (matches_at_start_spec(pattern, lines[i]) || exists|j: int|
            0 <= j < split_seq(lines[i], " "@).len() && matches_at_start_spec(
                pattern,
                split_seq(lines[i], " "@)[j],
            ))
}

/// The tag names of the dictionary entries that hit, each once, in
/// dictionary order.
pub open spec fn base_found(lines: Seq<Seq<char>>, dict: Seq<(Seq<char>, Seq<char>)>) -> Seq<Seq<char>>
    decreases dict.len(),
{
    if dict.len() == 0 {
        seq![]
    } else {
        let p = base_found(lines, dict.drop_last());
        let e = dict.last();
        if !p.contains(e.1) && key_hit(lines, e.0) {
            p.push(e.1)
        } else {
            p
        }
    }
}

/// `found` extended by the pattern table in order, stopping once five tags
/// are known.
pub open spec fn extra_found(
    lines: Seq<Seq<char>>,
    found: Seq<Seq<char>>,
    extra: Seq<(Seq<char>, Seq<char>)>,
) -> Seq<Seq<char>>
    decreases extra.len(),
{
    if extra.len() == 0 || found.len() >= 5 {
        found
    } else {
        let e = extra[0];
        let next = if !found.contains(e.1) && pattern_hit(lines, e.0) {
            found.push(e.1)
        } else {
            found
        };
        extra_found(lines, next, extra.drop_first())
    }
}

/// `found` extended by the pattern table in order, given for each entry
/// whether its pattern hits, stopping once five tags are known.
pub open spec fn extend_by(found: Seq<Seq<char>>, extra: Seq<(Seq<char>, Seq<char>)>, hits: Seq<bool>) -> Seq<
    Seq<char>,
>
    decreases extra.len(),
{
    if extra.len() == 0 || found.len() >= 5 {
        found
    } else {
        let e = extra[0];
        let next = if !found.contains(e.1) && hits.len() > 0 && hits[0] {
            found.push(e.1)
        } else {
            found
        };
        extend_by(next, extra.drop_first(), hits.drop_first())
    }
}

/// Extending by the pattern table is extending by whether each pattern
/// hits.
proof fn lemma_extra_found_by_hits(
    lines: Seq<Seq<char>>,
    found: Seq<Seq<char>>,
    extra: Seq<(Seq<char>, Seq<char>)>,
    hits: Seq<bool>,
)
    requires
        hits.len() == extra.len(),
        forall|i: int| 0 <= i < extra.len() ==> hits[i] == pattern_hit(lines, #[trigger] extra[i].0),
    ensures
        extra_found(lines, found, extra) == extend_by(found, extra, hits),
    decreases extra.len(),
{
    if extra.len() > 0 && found.len() < 5 {
        let e = extra[0];
        assert(hits[0] == pattern_hit(lines, extra[0].0));
        let next = if !found.contains(e.1) && pattern_hit(lines, e.0) {
            found.push(e.1)
        } else {
            found
        };
        assert forall|i: int| 0 <= i < extra.drop_first().len() implies hits.drop_first()[i] == pattern_hit(
            lines,
            #[trigger] extra.drop_first()[i].0,
        ) by {
            assert(extra.drop_first()[i] == extra[i + 1]);
            assert(hits.drop_first()[i] == hits[i + 1]);
        }
        lemma_extra_found_by_hits(lines, next, extra.drop_first(), hits.drop_first());
    }
}

/// The tags one dictionary finds, completed by its pattern table unless
/// exactly five were found.
pub open spec fn core_found(
    lines: Seq<Seq<char>>,
    dict: Seq<(Seq<char>, Seq<char>)>,
    extra: Option<Seq<(Seq<char>, Seq<char>)>>,
) -> Seq<Seq<char>> {
    let b = base_found(lines, dict);
    match extra {
        Some(e) => if b.len() != 5 {
            extra_found(lines, b, e)
        } else {
            b
        },
        None => b,
    }
}

/// `a` followed by the elements of `b` that `a` lacks.
pub open spec fn union_seq(a: Seq<Seq<char>>, b: Seq<Seq<char>>) -> Seq<Seq<char>> {
    a + b.filter(|x: Seq<char>| !a.contains(x))
}

/// The recognised tags of the cleaned lines: Japanese when it finds five,
/// else English when it finds five, else Chinese (mainland) when it finds
/// five; else Japanese and Chinese together unless English found more.
pub open spec fn match_spec(m: MatcherV, lines: Seq<Seq<char>>) -> (Seq<Seq<char>>, bool) {
    pick_match(
        core_found(lines, m.ja, Some(m.ja_extra)),
        core_found(lines, m.en, None),
        core_found(lines, m.zh, Some(m.zh_extra)),
    )
}

/// The recognised tags and whether the text is of the global server, from
/// the tags found with the Japanese, English and Chinese dictionaries: the
/// first of them with five tags; else the Japanese and Chinese tags
/// together when they are at least as many as the English ones, global
/// when the Japanese ones are at least as many as the Chinese; else the
/// English ones.
pub open spec fn pick_match(jp: Seq<Seq<char>>, en: Seq<Seq<char>>, zh: Seq<Seq<char>>) -> (Seq<Seq<char>>, bool) {
    let jpzh = union_seq(jp, zh);
    if jp.len() >= 5 {
        (jp, true)
    } else if en.len() >= 5 {
        (en, true)
    } else if zh.len() >= 5 {
        (zh, false)
    } else if jpzh.len() >= en.len() {
        (jpzh, jp.len() >= zh.len())
    } else {
        (en, true)
    }
}

/// A dictionary key that hits is a whole line or stands in one as a word.
proof fn lemma_key_hit_word(lines: Seq<Seq<char>>, key: Seq<char>)
    requires
        key_hit(lines, key),
    ensures
        exists|i: int| 0 <= i < lines.len() && (lines[i] == key || delimited_in(lines[i], key)),
{
    reveal_strlit(" ");
    assert(" "@ =~= seq![' ']);
    let i = choose|i: int|
        0 <= i < lines.len() && (lines[i] == key || split_seq(lines[i], " "@).contains(key));
    if lines[i] != key {
        lemma_split_acc_delimited(lines[i], seq![], key);
        assert(Seq::<char>::empty() + lines[i] =~= lines[i]);
    }
}

/// Some entry of `dict` with tag `t` has its written form as a whole line
/// or as a space-separated word of one.
pub open spec fn written_as_word(lines: Seq<Seq<char>>, dict: Seq<(Seq<char>, Seq<char>)>, t: Seq<char>) -> bool {
    exists|e: int, i: int|
        #![trigger dict[e], lines[i]]
        0 <= e < dict.len() && dict[e].1 == t && 0 <= i < lines.len() && (lines[i] == dict[e].0
            || delimited_in(lines[i], dict[e].0))
}

/// An entry written as a word stays so when the dictionary grows.
proof fn lemma_written_extend(
    lines: Seq<Seq<char>>,
    d: Seq<(Seq<char>, Seq<char>)>,
    x: (Seq<char>, Seq<char>),
    t: Seq<char>,
)
    requires
        written_as_word(lines, d, t),
    ensures
        written_as_word(lines, d.push(x), t),
{
    let (e, i) = choose|e: int, i: int|
        #![trigger d[e], lines[i]]
        0 <= e < d.len() && d[e].1 == t && 0 <= i < lines.len() && (lines[i] == d[e].0
            || delimited_in(lines[i], d[e].0));
    assert(d.push(x)[e] == d[e]);
}

/// A dictionary entry's tag is found only when its written form is a whole
/// cleaned line or a space-separated word of one: a key that only occurs
/// inside a longer word is not found.
pub proof fn lemma_dictionary_hits_are_words(lines: Seq<Seq<char>>, dict: Seq<(Seq<char>, Seq<char>)>)
    ensures
        forall|t: Seq<char>| #[trigger] base_found(lines, dict).contains(t) ==> written_as_word(lines, dict, t),
    decreases dict.len(),
{
    if dict.len() > 0 {
        let d = dict.drop_last();
        lemma_dictionary_hits_are_words(lines, d);
        let p = base_found(lines, d);
        let x = dict.last();
        assert forall|t: Seq<char>| #[trigger] base_found(lines, dict).contains(t) implies written_as_word(
            lines,
            dict,
            t,
        ) by {
            if p.contains(t) {
                assert(written_as_word(lines, d, t));
                lemma_written_extend(lines, d, x, t);
                assert(d.push(x) =~= dict);
            } else {
                assert(!p.contains(x.1) && key_hit(lines, x.0));
                let k = choose|k: int| 0 <= k < p.push(x.1).len() && p.push(x.1)[k] == t;
                assert(k == p.len()) by {
                    if k < p.len() {
                        assert(p[k] == t);
                    }
                }
                assert(t == x.1);
                lemma_key_hit_word(lines, x.0);
                let i = choose|i: int| 0 <= i < lines.len() && (lines[i] == x.0 || delimited_in(lines[i], x.0));
                assert(dict[dict.len() - 1] == x);
            }
        }
    }
}

/// When one line cannot be cleaned, the whole text cannot.
pub proof fn lemma_clean_lines_fails(m: MatcherV, lines: Seq<Seq<char>>, i: int)
    requires
        0 <= i < lines.len(),
        clean_line(m, lines[i]) is None,
    ensures
        clean_lines(m, lines) is None,
    decreases lines.len(),
{
    if i < lines.len() - 1 {
        lemma_clean_lines_fails(m, lines.drop_last(), i);
    }
}

/// A dictionary pass finds each tag at most once.
pub proof fn lemma_base_found_no_dup(lines: Seq<Seq<char>>, dict: Seq<(Seq<char>, Seq<char>)>)
    ensures
        base_found(lines, dict).no_duplicates(),
    decreases dict.len(),
{
    if dict.len() > 0 {
        lemma_base_found_no_dup(lines, dict.drop_last());
        let p = base_found(lines, dict.drop_last());
        if !p.contains(dict.last().1) {
            lemma_push_fresh(p, dict.last().1);
        }
    }
}

/// A pattern pass adds each tag at most once.
pub proof fn lemma_extra_found_no_dup(
    lines: Seq<Seq<char>>,
    found: Seq<Seq<char>>,
    extra: Seq<(Seq<char>, Seq<char>)>,
)
    requires
        found.no_duplicates(),
    ensures
        extra_found(lines, found, extra).no_duplicates(),
    decreases extra.len(),
{
    if extra.len() > 0 && found.len() < 5 {
        let e = extra[0];
        if !found.contains(e.1) && pattern_hit(lines, e.0) {
            lemma_push_fresh(found, e.1);
            lemma_extra_found_no_dup(lines, found.push(e.1), extra.drop_first());
        } else {
            lemma_extra_found_no_dup(lines, found, extra.drop_first());
        }
    }
}

/// Filtering keeps a sequence free of repeats.
proof fn lemma_filter_no_dup(s: Seq<Seq<char>>, p: spec_fn(Seq<char>) -> bool)
    requires
        s.no_duplicates(),
    ensures
        s.filter(p).no_duplicates(),
    decreases s.len(),
{
    reveal(Seq::filter);
    if s.len() > 0 {
        assert(s.drop_last().no_duplicates());
        lemma_filter_no_dup(s.drop_last(), p);
        if p(s.last()) {
            if s.drop_last().filter(p).contains(s.last()) {
                s.drop_last().lemma_filter_contains_rev(p, s.last());
                let k = choose|k: int| 0 <= k < s.drop_last().len() && s.drop_last()[k] == s.last();
                assert(s[k] == s[s.len() - 1]);
            }
            lemma_push_fresh(s.drop_last().filter(p), s.last());
        }
    }
}

/// Joining two repeat-free sequences this way gives one.
pub proof fn lemma_union_no_dup(a: Seq<Seq<char>>, b: Seq<Seq<char>>)
    requires
        a.no_duplicates(),
        b.no_duplicates(),
    ensures
        union_seq(a, b).no_duplicates(),
{
    let p = |x: Seq<char>| !a.contains(x);
    lemma_filter_no_dup(b, p);
    let f = b.filter(p);
    assert forall|i: int, j: int| 0 <= i < a.len() && 0 <= j < f.len() implies a[i] != f[j] by {
        b.lemma_filter_pred(p, j);
        assert(a.contains(a[i]));
    }
    vstd::seq_lib::lemma_no_dup_in_concat(a, f);
}

/// Each recognised tag is reported once.
pub proof fn lemma_match_no_dup(m: MatcherV, lines: Seq<Seq<char>>)
    ensures
        match_spec(m, lines).0.no_duplicates(),
{
    lemma_base_found_no_dup(lines, m.ja);
    lemma_base_found_no_dup(lines, m.en);
    lemma_base_found_no_dup(lines, m.zh);
    lemma_extra_found_no_dup(lines, base_found(lines, m.ja), m.ja_extra);
    lemma_extra_found_no_dup(lines, base_found(lines, m.zh), m.zh_extra);
    lemma_union_no_dup(
        core_found(lines, m.ja, Some(m.ja_extra)),
        core_found(lines, m.zh, Some(m.zh_extra)),
    );
}

// ---------------------------------------------------------------------------
// Calls into the regular-expression engine
// ---------------------------------------------------------------------------

/// Compiles `pattern` with `fancy_regex::Regex::new` and replaces every
/// match in `text` by `rep` with `Regex::try_replacen(text, 0, rep)`.
/// `None` when the pattern does not compile or the engine reports an error.
/// The result is named by `spec_regex_replace_all`.
#[verifier::external_body]
pub(crate) fn regex_replace_all(pattern: &str, text: &str, rep: &str) -> (r: Option<String>)
    ensures
        match spec_regex_replace_all(pattern@, text@, rep@) {
            None => r is None,
            Some(s) => r matches Some(x) && x@ == s,
        },
{
    match fancy_regex::Regex::new(pattern) {
        Ok(re) => match re.try_replacen(text, 0, rep) {
            Ok(c) => Some(c.into_owned()),
            Err(_) => None,
        },
        Err(_) => None,
    }
}

/// Compiles `pattern` with `fancy_regex::Regex::new` and returns the byte
/// offset at which `Regex::find` finds the first match in `text`. `None`
/// when there is no match, the pattern does not compile or the engine
/// reports an error. The result is named by `spec_regex_find_start`.
#[verifier::external_body]
fn regex_find_start(pattern: &str, text: &str) -> (r: Option<usize>)
    ensures
        r == spec_regex_find_start(pattern@, text@),
{
    match fancy_regex::Regex::new(pattern) {
        Ok(re) => match re.find(text) {
            Ok(Some(m)) => Some(m.start()),
            Ok(None) => None,
            Err(_) => None,
        },
        Err(_) => None,
    }
}

// ---------------------------------------------------------------------------
// Implementation
// ---------------------------------------------------------------------------

/// Whether the regex of `pattern` matches at the start of `text`; an engine
/// failure counts as no match.
fn matches_at_start(pattern: &str, text: &str) -> (r: bool)
    ensures
        r == matches_at_start_spec(pattern@, text@),
{
    starts_at_front(regex_find_start(pattern, text))
}

/// Whether a match found at `found` (a byte offset, `None` when there is no
/// match) starts the text.
pub fn starts_at_front(found: Option<usize>) -> (r: bool)
    ensures
        r == (found == Some(0usize)),
{
    match found {
        Some(p) => p == 0,
        None => false,
    }
}

/// A table entry as a pair of owned strings.
fn entry(a: &str, b: &str) -> (r: (String, String))
    ensures
        r.0@ == a@,
        r.1@ == b@,
{
    (to_owned(a), to_owned(b))
}

/// The Japanese pattern table: misread forms of tags, in order of trial.
fn ja_extra_entries() -> (r: Vec<(String, String)>)
    ensures
        pairs_view(r@) == ja_extra_table(),
{
    let mut v: Vec<(String, String)> = Vec::new();
    v.push(entry("範[围圍囲困匯田]攻[擊撃]", "範囲攻撃"));
    v.push(entry("(?!上級)(..?)?ー下", "エリート"));
    v.push(entry("医療...?", "医療"));
    v.push(entry("上級..ー下", "上級エリート"));
    v.push(entry("補助...?", "補助"));
    v.push(entry("狙撃...?", "狙撃"));
    v.push(entry("前衛...?", "前衛"));
    v.push(entry("COST(O)?", "COST回復"));
    v.push(entry("防御.", "防御"));
    v.push(entry("重装...?", "重装"));
    v.push(entry("上級エリード", "上級エリート"));
    v.push(entry("エリード", "エリート"));
    v.push(entry("特殊..?.?", "特殊"));
    v.push(entry("[35]{2}1t", "弱化"));
    v.push(entry("、弁】", "爆発力"));
    v.push(entry("[匠近]距[离離]", "近距離"));
    v.push(entry("[攴支][扶援]", "支援"));
    v.push(entry("[術市]師...?", "術師"));
    assert(pairs_view(v@) =~= ja_extra_table());
    v
}

/// The Chinese pattern table.
fn zh_extra_entries() -> (r: Vec<(String, String)>)
    ensures
        pairs_view(r@) == zh_extra_table(),
{
    let mut v: Vec<(String, String)> = Vec::new();
    v.push(entry("費用回复", "COST回復"));
    v.push(entry("治疔", "治療"));
    assert(pairs_view(v@) =~= zh_extra_table());
    v
}

/// The corrections of misread characters, applied in order.
fn replace_entries() -> (r: Vec<(String, String)>)
    ensures
        pairs_view(r@) == replace_table(),
{
    let mut v: Vec<(String, String)> = Vec::new();
    v.push(entry("工", "エ"));
    v.push(entry("夕", "タ"));
    v.push(entry("一", "ー"));
    v.push(entry("卜", "ト"));
    v.push(entry("り", "リ"));
    v.push(entry("ブ", "プ"));
    v.push(entry("カ", "力"));
    v.push(entry("口", "ロ"));
    v.push(entry("エ[丿ノ刂]ート", "エリート"));
    v.push(entry("[于千]员", "干员"));
    assert(pairs_view(v@) =~= replace_table());
    v
}


/// Whether `key` is a whole line or a space-separated part of one.
fn key_hit_exec(lines: &Vec<String>, key: &str) -> (r: bool)
    ensures
        r == key_hit(views(lines@), key@),
{
    proof {
        reveal_strlit(" ");
    }
    let ghost lv = views(lines@);
    let n = lines.len();
    for i in 0..n
        invariant
            n == lines@.len(),
            lv == views(lines@),
            forall|j: int|
                0 <= j < i ==> !(lv[j] == key@ || split_seq(lv[j], " "@).contains(key@)),
    {
        proof {
            reveal_strlit(" ");
        }
        let parts = split(lines[i].as_str(), " ");
        if str_eq(lines[i].as_str(), key) || list_contains(&parts, key) {
            assert(0 <= i < lv.len() && (lv[i as int] == key@ || split_seq(lv[i as int], " "@).contains(key@)));
            return true;
        }
    }
    false
}

/// Whether `pattern` matches at the start of a line or of one of its
/// space-separated parts.
fn pattern_hit_exec(lines: &Vec<String>, pattern: &str) -> (r: bool)
    ensures
        r == pattern_hit(views(lines@), pattern@),
{
    proof {
        reveal_strlit(" ");
    }
    let ghost lv = views(lines@);
    let n = lines.len();
    for i in 0..n
        invariant
            n == lines@.len(),
            lv == views(lines@),
            forall|j: int|
                0 <= j < i ==> !(matches_at_start_spec(pattern@, #[trigger] lv[j]) || exists|k: int|
                    0 <= k < split_seq(lv[j], " "@).len() && matches_at_start_spec(
                        pattern@,
                        split_seq(lv[j], " "@)[k],
                    )),
    {
        if matches_at_start(pattern, lines[i].as_str()) {
            assert(0 <= i < lv.len() && matches_at_start_spec(pattern@, lv[i as int]));
            return true;
        }
        proof {
            reveal_strlit(" ");
        }
        let parts = split(lines[i].as_str(), " ");
        let ghost pv = views(parts@);
        let m = parts.len();
        for k in 0..m
            invariant
                m == parts@.len(),
                pv == views(parts@),
                pv == split_seq(lv[i as int], " "@),
                lv == views(lines@),
                0 <= i < lines@.len(),
                forall|q: int| 0 <= q < k ==> !matches_at_start_spec(pattern@, #[trigger] pv[q]),
        {
            if matches_at_start(pattern, parts[k].as_str()) {
                assert(matches_at_start_spec(pattern@, pv[k as int]));
                return true;
            }
        }
    }
    false
}

/// The tag names of the dictionary entries that hit (see `base_found`).
fn base_found_exec(lines: &Vec<String>, dict: &Vec<(String, String)>) -> (r: Vec<String>)
    ensures
        views(r@) == base_found(views(lines@), pairs_view(dict@)),
{
    let ghost dv = pairs_view(dict@);
    let ghost lv = views(lines@);
    let mut ret: Vec<String> = Vec::new();
    let n = dict.len();
    assert(dv.take(0) =~= Seq::<(Seq<char>, Seq<char>)>::empty());
    for i in 0..n
        invariant
            n == dict@.len(),
            dv == pairs_view(dict@),
            lv == views(lines@),
            views(ret@) == base_found(lv, dv.take(i as int)),
    {
        assert(dv.take(i + 1).drop_last() =~= dv.take(i as int));
        assert(dv.take(i + 1).last() == dv[i as int]);
        let e = &dict[i];
        assert(dv[i as int] == (e.0@, e.1@));
        if !list_contains(&ret, e.1.as_str()) && key_hit_exec(lines, e.0.as_str()) {
            let ghost before = views(ret@);
            ret.push(e.1.clone());
            assert(views(ret@) =~= before.push(e.1@));
        }
    }
    assert(dv.take(n as int) =~= dv);
    ret
}

/// `found` extended by a pattern table (see `extra_found`).
fn extra_found_exec(lines: &Vec<String>, found: Vec<String>, extra: &Vec<(String, String)>) -> (r:
    Vec<String>)
    ensures
        views(r@) == extra_found(views(lines@), views(found@), pairs_view(extra@)),
{
    let ghost ev = pairs_view(extra@);
    let ghost lv = views(lines@);
    let mut hits: Vec<bool> = Vec::new();
    let n = extra.len();
    for i in 0..n
        invariant
            n == extra@.len(),
            ev == pairs_view(extra@),
            lv == views(lines@),
            hits@.len() == i,
            forall|j: int| 0 <= j < i ==> hits@[j] == pattern_hit(lv, #[trigger] ev[j].0),
    {
        let h = pattern_hit_exec(lines, extra[i].0.as_str());
        assert(ev[i as int].0 == extra@[i as int].0@);
        hits.push(h);
    }
    proof {
        lemma_extra_found_by_hits(lv, views(found@), ev, hits@);
    }
    extend_by_hits(found, extra, &hits)
}

/// `found` extended by a pattern table, given for each entry whether its
/// pattern hits (see `extend_by`).
pub fn extend_by_hits(found: Vec<String>, extra: &Vec<(String, String)>, hits: &Vec<bool>) -> (r: Vec<String>)
    requires
        hits@.len() == extra@.len(),
    ensures
        views(r@) == extend_by(views(found@), pairs_view(extra@), hits@),
{
    let ghost ev = pairs_view(extra@);
    let ghost f0 = views(found@);
    let mut ret = found;
    let n = extra.len();
    let mut i: usize = 0;
    assert(ev.skip(0) =~= ev);
    assert(hits@.skip(0) =~= hits@);
    while i < n
        invariant
            n == extra@.len(),
            n == hits@.len(),
            i <= n,
            ev == pairs_view(extra@),
            f0 == views(found@),
            extend_by(f0, ev, hits@) == extend_by(views(ret@), ev.skip(i as int), hits@.skip(i as int)),
        decreases n - i,
    {
        if ret.len() >= 5 {
            return ret;
        }
        assert(ev.skip(i as int)[0] == ev[i as int]);
        assert(ev.skip(i as int).drop_first() =~= ev.skip(i + 1));
        assert(hits@.skip(i as int)[0] == hits@[i as int]);
        assert(hits@.skip(i as int).drop_first() =~= hits@.skip(i + 1));
        let e = &extra[i];
        assert(ev[i as int] == (e.0@, e.1@));
        if !list_contains(&ret, e.1.as_str()) && hits[i] {
            let ghost before = views(ret@);
            ret.push(e.1.clone());
            assert(views(ret@) =~= before.push(e.1@));
        }
        i = i + 1;
    }
    assert(ev.skip(n as int) =~= Seq::<(Seq<char>, Seq<char>)>::empty());
    ret
}

/// The tags one dictionary finds (see `core_found`).
fn core_found_exec(
    lines: &Vec<String>,
    dict: &Vec<(String, String)>,
    extra: Option<&Vec<(String, String)>>,
) -> (r: Vec<String>)
    ensures
        views(r@) == core_found(
            views(lines@),
            pairs_view(dict@),
            match extra {
                Some(e) => Some(pairs_view(e@)),
                None => None,
            },
        ),
{
    let ret = base_found_exec(lines, dict);
    match extra {
        Some(e) => if ret.len() != 5 {
            extra_found_exec(lines, ret, e)
        } else {
            ret
        },
        None => ret,
    }
}

/// `a` followed by the elements of `b` that `a` lacks.
fn union_exec(a: &Vec<String>, b: &Vec<String>) -> (r: Vec<String>)
    ensures
        views(r@) == union_seq(views(a@), views(b@)),
{
    let ghost av = views(a@);
    let ghost bv = views(b@);
    let mut out: Vec<String> = Vec::new();
    let na = a.len();
    for i in 0..na
        invariant
            na == a@.len(),
            av == views(a@),
            views(out@) == av.take(i as int),
    {
        let ghost before = views(out@);
        out.push(a[i].clone());
        assert(views(out@) =~= before.push(av[i as int]));
        assert(views(out@) =~= av.take(i + 1));
    }
    assert(av.take(na as int) =~= av);
    let nb = b.len();
    assert(bv.take(0) =~= Seq::<Seq<char>>::empty());
    for i in 0..nb
        invariant
            nb == b@.len(),
            av == views(a@),
            bv == views(b@),
            views(out@) == av + bv.take(i as int).filter(|x: Seq<char>| !av.contains(x)),
    {
        proof {
            reveal(Seq::filter);
        }
        assert(bv.take(i + 1).drop_last() =~= bv.take(i as int));
        assert(bv.take(i + 1).last() == bv[i as int]);
        let ghost before = views(out@);
        if !list_contains(a, b[i].as_str()) {
            out.push(b[i].clone());
            assert(views(out@) =~= before.push(bv[i as int]));
        }
    }
    assert(bv.take(nb as int) =~= bv);
    out
}

/// Picks the recognised tags from those each dictionary found (see
/// `pick_match`).
pub fn pick_match_exec(jp: Vec<String>, en: Vec<String>, zh: Vec<String>) -> (r: MatchResult)
    ensures
        (views(r.matches@), r.is_global) == pick_match(views(jp@), views(en@), views(zh@)),
{
    if jp.len() >= 5 {
        return MatchResult { matches: jp, is_global: true };
    }
    if en.len() >= 5 {
        return MatchResult { matches: en, is_global: true };
    }
    if zh.len() >= 5 {
        return MatchResult { matches: zh, is_global: false };
    }
    let jpzh = union_exec(&jp, &zh);
    if jpzh.len() >= en.len() {
        let g = jp.len() >= zh.len();
        return MatchResult { matches: jpzh, is_global: g };
    }
    MatchResult { matches: en, is_global: true }
}

impl Matcher {
    /// A recogniser with the given dictionaries (written form, tag name) and
    /// the built-in pattern tables.
    pub fn new(ja: Vec<(String, String)>, en: Vec<(String, String)>, zh: Vec<(String, String)>) -> (r:
        Matcher)
        ensures
            r@ == (MatcherV {
                ja: pairs_view(ja@),
                en: pairs_view(en@),
                zh: pairs_view(zh@),
                ja_extra: ja_extra_table(),
                zh_extra: zh_extra_table(),
                replace: replace_table(),
                clear: clear_pattern(),
            }),
    {
        Matcher {
            ja,
            en,
            zh,
            ja_extra: ja_extra_entries(),
            zh_extra: zh_extra_entries(),
            replace: replace_entries(),
            clear: to_owned("[．•་.,·・´`‧˙。¸Ⓡ【®:「、]+|^[-]+|[-]+$"),
        }
    }

    /// One line cleaned (see `clean_line`).
    fn clean_one(&self, line: &str) -> (r: Option<String>)
        ensures
            match clean_line(self@, line@) {
                None => r is None,
                Some(l) => r matches Some(x) && x@ == l,
            },
    {
        proof {
            reveal_strlit("");
            assert(""@ =~= Seq::<char>::empty());
        }
        let t = trim(line);
        let mut cur = match regex_replace_all(self.clear.as_str(), t.as_str(), "") {
            Some(c) => c,
            None => return None,
        };
        let ghost rv = self@.replace;
        let ghost c0 = cur@;
        let n = self.replace.len();
        assert(rv.skip(0) =~= rv);
        for i in 0..n
            invariant
                n == self.replace@.len(),
                rv == self@.replace,
                clean_line(self@, line@) == apply_replacements(rv, c0),
                apply_replacements(rv, c0) == apply_replacements(rv.skip(i as int), cur@),
        {
            assert(rv.skip(i as int)[0] == rv[i as int]);
            assert(rv.skip(i as int).drop_first() =~= rv.skip(i + 1));
            let e = &self.replace[i];
            assert(rv[i as int] == (e.0@, e.1@));
            match regex_replace_all(e.0.as_str(), cur.as_str(), e.1.as_str()) {
                Some(c) => {
                    cur = c;
                },
                None => {
                    return None;
                },
            }
        }
        assert(rv.skip(n as int) =~= Seq::<(Seq<char>, Seq<char>)>::empty());
        Some(cur)
    }

    /// The cleaned lines of an OCR text (see `cleaned_text`).
    pub fn clean_text(&self, text: &str) -> (r: Option<Vec<String>>)
        ensures
            match cleaned_text(self@, text@) {
                None => r is None,
                Some(ls) => r matches Some(v) && views(v@) == ls,
            },
    {
        proof {
            reveal_strlit("\n");
        }
        let raw = split(text, "\n");
        let ghost lv = views(raw@);
        let mut out: Vec<String> = Vec::new();
        let n = raw.len();
        assert(lv.take(0) =~= Seq::<Seq<char>>::empty());
        for i in 0..n
            invariant
                n == raw@.len(),
                lv == views(raw@),
                lv == split_seq(text@, "\n"@),
                clean_lines(self@, lv.take(i as int)) == Some(views(out@)),
        {
            assert(lv.take(i + 1).drop_last() =~= lv.take(i as int));
            assert(lv.take(i + 1).last() == lv[i as int]);
            let ghost before = views(out@);
            match self.clean_one(raw[i].as_str()) {
                Some(l) => {
                    out.push(l);
                    assert(views(out@) =~= before.push(clean_line(self@, lv[i as int])->0));
                },
                None => {
                    proof {
                        lemma_clean_lines_fails(self@, lv, i as int);
                    }
                    return None;
                },
            }
        }
        assert(lv.take(n as int) =~= lv);
        Some(out)
    }

    /// The tags recognised in an OCR text (see `match_spec`), after each
    /// line is cleaned. `None` when the regular-expression engine fails on
    /// a correction.
    pub fn match_tag(&self, result: &str) -> (r: Option<MatchResult>)
        ensures
            match cleaned_text(self@, result@) {
                None => r is None,
                Some(lines) => r matches Some(m) && (views(m.matches@), m.is_global) == match_spec(
                    self@,
                    lines,
                ) && views(m.matches@).no_duplicates(),
            },
    {
        let lines = match self.clean_text(result) {
            Some(l) => l,
            None => return None,
        };
        proof {
            lemma_match_no_dup(self@, views(lines@));
        }
        let jp = core_found_exec(&lines, &self.ja, Some(&self.ja_extra));
        let en = core_found_exec(&lines, &self.en, None);
        let zh = core_found_exec(&lines, &self.zh, Some(&self.zh_extra));
        Some(pick_match_exec(jp, en, zh))
    }

}

} // verus!
