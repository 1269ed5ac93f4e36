//! Character-sequence utilities shared by every module: whitespace handling,
//! substring search, literal replacement, splitting and joining, decimal
//! rendering. Each operation is stated over `Seq<char>` (the view of a string).
use vstd::prelude::*;

verus! {

// ---------------------------------------------------------------------------
// Specifications
// ---------------------------------------------------------------------------

/// Unicode `White_Space` code points (what `char::is_whitespace` tests).
pub open spec fn is_ws(c: char) -> bool {
    let u = c as u32;
    ||| 0x9 <= u <= 0xd
    ||| u == 0x20
    ||| u == 0x85
    ||| u == 0xa0
    ||| u == 0x1680
    ||| 0x2000 <= u <= 0x200a
    ||| u == 0x2028
    ||| u == 0x2029
    ||| u == 0x202f
    ||| u == 0x205f
    ||| u == 0x3000
}

/// `s` without its leading whitespace.
pub open spec fn trim_start_seq(s: Seq<char>) -> Seq<char>
    decreases s.len(),
{
    if s.len() > 0 && is_ws(s[0]) {
        trim_start_seq(s.drop_first())
    } else {
        s
    }
}

/// `s` without its trailing whitespace.
pub open spec fn trim_end_seq(s: Seq<char>) -> Seq<char>
    decreases s.len(),
{
    if s.len() > 0 && is_ws(s.last()) {
        trim_end_seq(s.drop_last())
    } else {
        s
    }
}

/// `s` without leading and trailing whitespace.
pub open spec fn trim_seq(s: Seq<char>) -> Seq<char> {
    trim_end_seq(trim_start_seq(s))
}

/// `t` occurs in `s` starting at position `i`.
pub open spec fn occurs_at(s: Seq<char>, t: Seq<char>, i: int) -> bool {
    &&& 0 <= i
    &&& i + t.len() <= s.len()
    &&& s.subrange(i, i + t.len()) == t
}

/// `t` is a substring of `s`.
pub open spec fn has_sub(s: Seq<char>, t: Seq<char>) -> bool {
    exists|i: int| occurs_at(s, t, i)
}

/// `s` with every non-overlapping occurrence of a non-empty `from`
/// (scanning left to right) replaced by `to`. An empty `from` is not what
/// this describes (`str::replace` would put `to` between all characters):
/// the value given for it, `s` itself, only closes the definition.
pub open spec fn replace_seq(s: Seq<char>, from: Seq<char>, to: Seq<char>) -> Seq<char>
    decreases s.len(),
{
    if from.len() == 0 || s.len() < from.len() {
        s
    } else if s.take(from.len() as int) == from {
        to + replace_seq(s.skip(from.len() as int), from, to)
    } else {
        seq![s[0]] + replace_seq(s.drop_first(), from, to)
    }
}

/// The pieces of `s` between non-overlapping occurrences of a non-empty
/// `sep`, found left to right; `cur` is the part of the first piece already
/// read. An empty `sep` is not what this describes; the value given for it
/// only closes the definition.
pub open spec fn split_acc(s: Seq<char>, sep: Seq<char>, cur: Seq<char>) -> Seq<Seq<char>>
    decreases s.len(),
{
    if sep.len() == 0 || s.len() < sep.len() {
        seq![cur + s]
    } else if s.take(sep.len() as int) == sep {
        seq![cur] + split_acc(s.skip(sep.len() as int), sep, seq![])
    } else {
        split_acc(s.drop_first(), sep, cur.push(s[0]))
    }
}

/// The pieces of `s` separated by `sep` (empty pieces included).
pub open spec fn split_seq(s: Seq<char>, sep: Seq<char>) -> Seq<Seq<char>> {
    split_acc(s, sep, seq![])
}

/// `q` stands in `s` as a word: between spaces, or at an end of `s`.
pub open spec fn delimited_in(s: Seq<char>, q: Seq<char>) -> bool {
    exists|a: Seq<char>, b: Seq<char>|
        s == a + q + b && (a.len() == 0 || a.last() == ' ') && (b.len() == 0 || b[0] == ' ')
}

/// Each piece of a split at spaces stands in the text as a word.
pub proof fn lemma_split_acc_delimited(s: Seq<char>, cur: Seq<char>, q: Seq<char>)
    requires
        split_acc(s, seq![' '], cur).contains(q),
    ensures
        delimited_in(cur + s, q),
    decreases s.len(),
{
    let sep = seq![' '];
    let e = Seq::<char>::empty();
    if s.len() < 1 {
        assert(split_acc(s, sep, cur) == seq![cur + s]);
        assert(q == cur + s);
        assert(cur + s == e + q + e);
    } else if s.take(1) == sep {
        let rest = split_acc(s.skip(1), sep, seq![]);
        assert(split_acc(s, sep, cur) == seq![cur] + rest);
        let k = choose|k: int| 0 <= k < split_acc(s, sep, cur).len() && split_acc(s, sep, cur)[k] == q;
        if k == 0 {
            assert(q == cur);
            assert(s.take(1)[0] == s[0]);
            assert(s[0] == ' ');
            assert(cur + s == e + q + s);
        } else {
            assert(rest[k - 1] == q);
            assert(rest.contains(q));
            lemma_split_acc_delimited(s.skip(1), seq![], q);
            let (a, b) = choose|a: Seq<char>, b: Seq<char>|
                seq![] + s.skip(1) == a + q + b && (a.len() == 0 || a.last() == ' ') && (b.len() == 0
                    || b[0] == ' ');
            let a2 = cur + seq![' '] + a;
            assert(s =~= seq![' '] + s.skip(1));
            assert(Seq::<char>::empty() + s.skip(1) =~= s.skip(1));
            assert(cur + s =~= a2 + q + b);
            assert(a2.last() == ' ') by {
                if a.len() > 0 {
                    assert(a2.last() == a.last());
                }
            }
        }
    } else {
        lemma_split_acc_delimited(s.drop_first(), cur.push(s[0]), q);
        assert(cur.push(s[0]) + s.drop_first() =~= cur + s);
    }
}

/// Pushing an element that is absent keeps a sequence free of repeats.
pub proof fn lemma_push_fresh(s: Seq<Seq<char>>, x: Seq<char>)
    requires
        s.no_duplicates(),
        !s.contains(x),
    ensures
        s.push(x).no_duplicates(),
{
    assert forall|i: int, j: int|
        0 <= i < s.len() + 1 && 0 <= j < s.len() + 1 && i != j implies s.push(x)[i] != s.push(x)[j] by {
        if i == s.len() {
            assert(s.contains(s[j]));
        } else if j == s.len() {
            assert(s.contains(s[i]));
        }
    }
}

/// Splitting always gives at least one piece.
pub proof fn lemma_split_acc_nonempty(s: Seq<char>, sep: Seq<char>, cur: Seq<char>)
    ensures
        split_acc(s, sep, cur).len() >= 1,
    decreases s.len(),
{
    if sep.len() == 0 || s.len() < sep.len() {
    } else if s.take(sep.len() as int) == sep {
        lemma_split_acc_nonempty(s.skip(sep.len() as int), sep, seq![]);
    } else {
        lemma_split_acc_nonempty(s.drop_first(), sep, cur.push(s[0]));
    }
}

/// Splitting always gives at least one piece.
pub proof fn lemma_split_nonempty(s: Seq<char>, sep: Seq<char>)
    ensures
        split_seq(s, sep).len() >= 1,
{
    lemma_split_acc_nonempty(s, sep, seq![]);
}

/// The maximal runs of non-whitespace characters of `s`, after the partial
/// run `cur`.
pub open spec fn words_acc(s: Seq<char>, cur: Seq<char>) -> Seq<Seq<char>>
    decreases s.len(),
{
    if s.len() == 0 {
        if cur.len() > 0 {
            seq![cur]
        } else {
            seq![]
        }
    } else if is_ws(s[0]) {
        (if cur.len() > 0 {
            seq![cur]
        } else {
            seq![]
        }) + words_acc(s.drop_first(), seq![])
    } else {
        words_acc(s.drop_first(), cur.push(s[0]))
    }
}

/// The whitespace-separated words of `s`.
pub open spec fn words(s: Seq<char>) -> Seq<Seq<char>> {
    words_acc(s, seq![])
}

/// The parts joined with `sep` between consecutive parts.
pub open spec fn join_seq(parts: Seq<Seq<char>>, sep: Seq<char>) -> Seq<char>
    decreases parts.len(),
{
    if parts.len() == 0 {
        seq![]
    } else if parts.len() == 1 {
        parts[0]
    } else {
        join_seq(parts.drop_last(), sep) + sep + parts.last()
    }
}

/// `c` does not occur in `s`.
pub open spec fn lacks(s: Seq<char>, c: char) -> bool {
    forall|i: int| 0 <= i < s.len() ==> s[i] != c
}

/// Replacing in a text without the pattern's first character changes
/// nothing.
pub proof fn lemma_replace_absent(a: Seq<char>, p: Seq<char>, r: Seq<char>)
    requires
        p.len() > 0,
        lacks(a, p[0]),
    ensures
        replace_seq(a, p, r) == a,
    decreases a.len(),
{
    if a.len() >= p.len() {
        assert(a.take(p.len() as int)[0] == a[0]);
        assert(a.take(p.len() as int) != p);
        assert(lacks(a.drop_first(), p[0])) by {
            assert forall|i: int| 0 <= i < a.drop_first().len() implies a.drop_first()[i] != p[0] by {
                assert(a.drop_first()[i] == a[i + 1]);
            }
        }
        lemma_replace_absent(a.drop_first(), p, r);
        assert(seq![a[0]] + a.drop_first() =~= a);
    }
}

/// A prefix without the pattern's first character is kept as it is.
pub proof fn lemma_replace_concat(a: Seq<char>, b: Seq<char>, p: Seq<char>, r: Seq<char>)
    requires
        p.len() > 0,
        lacks(a, p[0]),
    ensures
        replace_seq(a + b, p, r) == a + replace_seq(b, p, r),
    decreases a.len(),
{
    let s = a + b;
    if a.len() == 0 {
        assert(s =~= b);
        assert(a + replace_seq(b, p, r) =~= replace_seq(b, p, r));
    } else if s.len() < p.len() {
        assert(b.len() < p.len());
        assert(s =~= a + b);
    } else {
        assert(s.take(p.len() as int)[0] == a[0]);
        assert(s.take(p.len() as int) != p);
        assert(s.drop_first() =~= a.drop_first() + b);
        assert(lacks(a.drop_first(), p[0])) by {
            assert forall|i: int| 0 <= i < a.drop_first().len() implies a.drop_first()[i] != p[0] by {
                assert(a.drop_first()[i] == a[i + 1]);
            }
        }
        lemma_replace_concat(a.drop_first(), b, p, r);
        assert(seq![s[0]] + (a.drop_first() + replace_seq(b, p, r)) =~= a + replace_seq(b, p, r));
    }
}

/// A text that starts with the pattern has it replaced first.
pub proof fn lemma_replace_prefix(c: Seq<char>, p: Seq<char>, r: Seq<char>)
    requires
        p.len() > 0,
    ensures
        replace_seq(p + c, p, r) == r + replace_seq(c, p, r),
{
    assert((p + c).take(p.len() as int) =~= p);
    assert((p + c).skip(p.len() as int) =~= c);
}

/// A whitespace character ends the pending word: what comes before and what
/// comes after are split into words separately.
pub proof fn lemma_words_split(a: Seq<char>, c: char, b: Seq<char>, cur: Seq<char>)
    requires
        is_ws(c),
    ensures
        words_acc(a + seq![c] + b, cur) == words_acc(a, cur) + words_acc(b, seq![]),
    decreases a.len(),
{
    let s = a + seq![c] + b;
    if a.len() == 0 {
        assert(s[0] == c);
        assert(s.drop_first() =~= b);
    } else {
        assert(s[0] == a[0]);
        assert(s.drop_first() =~= a.drop_first() + seq![c] + b);
        if is_ws(a[0]) {
            lemma_words_split(a.drop_first(), c, b, seq![]);
            let f: Seq<Seq<char>> = if cur.len() > 0 {
                seq![cur]
            } else {
                seq![]
            };
            assert(f + (words_acc(a.drop_first(), seq![]) + words_acc(b, seq![])) =~= (f
                + words_acc(a.drop_first(), seq![])) + words_acc(b, seq![]));
        } else {
            lemma_words_split(a.drop_first(), c, b, cur.push(a[0]));
        }
    }
}

/// A run of non-whitespace characters continues the pending word.
pub proof fn lemma_words_single(w: Seq<char>, cur: Seq<char>)
    requires
        cur.len() + w.len() > 0,
        forall|i: int| 0 <= i < w.len() ==> !is_ws(#[trigger] w[i]),
    ensures
        words_acc(w, cur) == seq![cur + w],
    decreases w.len(),
{
    if w.len() == 0 {
        assert(cur + w =~= cur);
    } else {
        assert(!is_ws(w[0]));
        assert forall|i: int| 0 <= i < w.drop_first().len() implies !is_ws(#[trigger] w.drop_first()[i]) by {
            assert(w.drop_first()[i] == w[i + 1]);
        }
        lemma_words_single(w.drop_first(), cur.push(w[0]));
        assert(cur.push(w[0]) + w.drop_first() =~= cur + w);
    }
}

/// Words joined with single spaces split back into those words.
pub proof fn lemma_words_of_join(names: Seq<Seq<char>>)
    requires
        names.len() > 0,
        forall|i: int| 0 <= i < names.len() ==> (#[trigger] names[i]).len() > 0,
        forall|i: int, j: int| 0 <= i < names.len() && 0 <= j < names[i].len() ==> !is_ws(#[trigger] names[i][j]),
    ensures
        words(join_seq(names, " "@)) == names,
    decreases names.len(),
{
    reveal_strlit(" ");
    let last = names.last();
    assert(forall|j: int| 0 <= j < last.len() ==> !is_ws(#[trigger] last[j])) by {
        assert forall|j: int| 0 <= j < last.len() implies !is_ws(#[trigger] last[j]) by {
            assert(last[j] == names[names.len() - 1][j]);
        }
    }
    if names.len() == 1 {
        lemma_words_single(names[0], seq![]);
        assert(Seq::<char>::empty() + names[0] =~= names[0]);
        assert(names =~= seq![names[0]]);
    } else {
        let d = names.drop_last();
        assert forall|i: int| 0 <= i < d.len() implies (#[trigger] d[i]).len() > 0 by {
            assert(d[i] == names[i]);
        }
        assert forall|i: int, j: int| 0 <= i < d.len() && 0 <= j < d[i].len() implies !is_ws(#[trigger] d[i][j]) by {
            assert(d[i] == names[i]);
        }
        lemma_words_of_join(d);
        let j = join_seq(d, " "@);
        assert(" "@ =~= seq![' ']);
        assert(is_ws(' '));
        lemma_words_split(j, ' ', last, seq![]);
        assert(j + " "@ + last =~= j + seq![' '] + last);
        lemma_words_single(last, seq![]);
        assert(Seq::<char>::empty() + last =~= last);
        assert(names =~= d.push(last));
        assert(d + seq![last] =~= d.push(last));
    }
}

/// The ASCII digit for `d` (`0 <= d < 10`).
pub open spec fn digit_char(d: nat) -> char {
    if d == 0 {
        '0'
    } else if d == 1 {
        '1'
    } else if d == 2 {
        '2'
    } else if d == 3 {
        '3'
    } else if d == 4 {
        '4'
    } else if d == 5 {
        '5'
    } else if d == 6 {
        '6'
    } else if d == 7 {
        '7'
    } else if d == 8 {
        '8'
    } else {
        '9'
    }
}

/// The decimal representation of `n`, without leading zeros.
pub open spec fn decimal(n: nat) -> Seq<char>
    decreases n,
{
    if n < 10 {
        seq![digit_char(n)]
    } else {
        decimal(n / 10).push(digit_char(n % 10))
    }
}

/// The views of a sequence of strings.
pub open spec fn views(v: Seq<String>) -> Seq<Seq<char>> {
    v.map_values(|x: String| x@)
}

// ---------------------------------------------------------------------------
// Conversions
// ---------------------------------------------------------------------------

/// Appends one character to a string (`String::push`).
#[verifier::external_body]
pub fn push_char(s: &mut String, c: char)
    ensures
        final(s)@ == old(s)@.push(c),
{
    s.push(c);
}

/// The characters of `s`, in order.
pub fn chars_of(s: &str) -> (r: Vec<char>)
    ensures
        r@ == s@,
{
    let mut out: Vec<char> = Vec::new();
    for c in it: s.chars()
        invariant
            out@ == it.seq().take(it.index() as int),
            it.seq() == s@,
    {
        out.push(c);
    }
    out
}

/// A string made of the given characters.
pub fn string_of(cs: &Vec<char>) -> (r: String)
    ensures
        r@ == cs@,
{
    let mut out = String::new();
    let n = cs.len();
    for i in 0..n
        invariant
            n == cs@.len(),
            out@ == cs@.take(i as int),
    {
        push_char(&mut out, cs[i]);
        assert(cs@.take(i + 1) == cs@.take(i as int).push(cs@[i as int]));
    }
    assert(cs@.take(n as int) == cs@);
    out
}

/// A fresh string with the contents of `s`.
pub fn to_owned(s: &str) -> (r: String)
    ensures
        r@ == s@,
{
    String::from_str(s)
}

/// Appends the characters of `cs` to `out`.
pub fn push_all(out: &mut String, cs: &Vec<char>)
    ensures
        final(out)@ == old(out)@ + cs@,
{
    let n = cs.len();
    for i in 0..n
        invariant
            n == cs@.len(),
            out@ == old(out)@ + cs@.take(i as int),
    {
        push_char(out, cs[i]);
        assert(cs@.take(i + 1) == cs@.take(i as int).push(cs@[i as int]));
    }
    assert(cs@.take(n as int) == cs@);
}

/// Appends `s` to `out`.
pub fn push_str(out: &mut String, s: &str)
    ensures
        final(out)@ == old(out)@ + s@,
{
    out.append(s);
}

/// `a` followed by `b`.
pub fn concat(a: &str, b: &str) -> (r: String)
    ensures
        r@ == a@ + b@,
{
    let mut out = String::from_str(a);
    out.append(b);
    out
}

// ---------------------------------------------------------------------------
// Comparison and search
// ---------------------------------------------------------------------------

/// Whether two character vectors are equal.
pub fn chars_eq(a: &Vec<char>, b: &Vec<char>) -> (r: bool)
    ensures
        r == (a@ == b@),
{
    if a.len() != b.len() {
        return false;
    }
    let n = a.len();
    for i in 0..n
        invariant
            n == a@.len(),
            n == b@.len(),
            forall|j: int| 0 <= j < i ==> a@[j] == b@[j],
    {
        if a[i] != b[i] {
            return false;
        }
    }
    assert(a@ =~= b@);
    true
}

/// Whether two strings have the same characters.
pub fn str_eq(a: &str, b: &str) -> (r: bool)
    ensures
        r == (a@ == b@),
{
    let ca = chars_of(a);
    let cb = chars_of(b);
    chars_eq(&ca, &cb)
}

/// Whether `t` occurs in `s` at position `i`.
pub fn occurs_at_exec(s: &Vec<char>, t: &Vec<char>, i: usize) -> (r: bool)
    ensures
        r == occurs_at(s@, t@, i as int),
{
    if i > s.len() || t.len() > s.len() - i {
        return false;
    }
    let m = t.len();
    let sl = s.len();
    let mut j: usize = 0;
    while j < m
        invariant
            m == t@.len(),
            sl == s@.len(),
            i + m <= sl,
            j <= m,
            forall|k: int| 0 <= k < j ==> s@[i + k] == t@[k],
        decreases m - j,
    {
        if s[i + j] != t[j] {
            assert(s@.subrange(i as int, i + m)[j as int] != t@[j as int]);
            return false;
        }
        j = j + 1;
    }
    assert(s@.subrange(i as int, i + m) =~= t@);
    true
}

/// Whether `t` is a substring of `s`.
pub fn contains_chars(s: &Vec<char>, t: &Vec<char>) -> (r: bool)
    ensures
        r == has_sub(s@, t@),
{
    if t.len() > s.len() {
        assert forall|i: int| !occurs_at(s@, t@, i) by {}
        return false;
    }
    let last = s.len() - t.len();
    for i in 0..last
        invariant
            last == s@.len() - t@.len(),
            forall|k: int| 0 <= k < i ==> !occurs_at(s@, t@, k),
    {
        if occurs_at_exec(s, t, i) {
            return true;
        }
    }
    if occurs_at_exec(s, t, last) {
        return true;
    }
    assert forall|k: int| !occurs_at(s@, t@, k) by {
        if 0 <= k < last {
        }
    }
    false
}

/// Whether `t` is a substring of `s` (`str::contains`).
pub fn contains(s: &str, t: &str) -> (r: bool)
    ensures
        r == has_sub(s@, t@),
{
    let cs = chars_of(s);
    let ct = chars_of(t);
    contains_chars(&cs, &ct)
}

/// Whether `s` begins with `t`.
pub fn starts_with(s: &str, t: &str) -> (r: bool)
    ensures
        r == occurs_at(s@, t@, 0),
{
    let cs = chars_of(s);
    let ct = chars_of(t);
    occurs_at_exec(&cs, &ct, 0)
}

/// Whether `s` ends with `t`.
pub fn ends_with(s: &str, t: &str) -> (r: bool)
    ensures
        r == (t@.len() <= s@.len() && occurs_at(s@, t@, s@.len() - t@.len())),
{
    let cs = chars_of(s);
    let ct = chars_of(t);
    if ct.len() > cs.len() {
        return false;
    }
    occurs_at_exec(&cs, &ct, cs.len() - ct.len())
}

// ---------------------------------------------------------------------------
// Whitespace
// ---------------------------------------------------------------------------

/// Whether `c` is whitespace (`char::is_whitespace`).
pub fn is_whitespace(c: char) -> (r: bool)
    ensures
        r == is_ws(c),
{
    let u = c as u32;
    (0x9 <= u && u <= 0xd) || u == 0x20 || u == 0x85 || u == 0xa0 || u == 0x1680 || (0x2000 <= u
        && u <= 0x200a) || u == 0x2028 || u == 0x2029 || u == 0x202f || u == 0x205f || u == 0x3000
}

/// `s` without leading and trailing whitespace (`str::trim`).
pub fn trim(s: &str) -> (r: String)
    ensures
        r@ == trim_seq(s@),
{
    let cs = chars_of(s);
    let n = cs.len();
    let mut a: usize = 0;
    assert(cs@.skip(0) =~= cs@);
    while a < n && is_whitespace(cs[a])
        invariant
            n == cs@.len(),
            a <= n,
            trim_start_seq(cs@) == trim_start_seq(cs@.skip(a as int)),
        decreases n - a,
    {
        assert(cs@.skip(a as int).drop_first() =~= cs@.skip(a + 1));
        a = a + 1;
    }
    let ghost mid = cs@.skip(a as int);
    assert(trim_start_seq(mid) == mid);
    let mut b: usize = n;
    while b > a && is_whitespace(cs[b - 1])
        invariant
            n == cs@.len(),
            a <= b <= n,
            mid == cs@.skip(a as int),
            trim_end_seq(mid) == trim_end_seq(cs@.subrange(a as int, b as int)),
        decreases b - a,
    {
        assert(cs@.subrange(a as int, b as int).drop_last() =~= cs@.subrange(a as int, b - 1));
        b = b - 1;
    }
    let mut out = String::new();
    let mut k = a;
    while k < b
        invariant
            a <= k <= b <= n,
            n == cs@.len(),
            out@ == cs@.subrange(a as int, k as int),
        decreases b - k,
    {
        push_char(&mut out, cs[k]);
        assert(cs@.subrange(a as int, k + 1) =~= cs@.subrange(a as int, k as int).push(cs@[k as int]));
        k = k + 1;
    }
    out
}

/// The whitespace-separated words of `s` (`str::split_whitespace`).
pub fn split_whitespace(s: &str) -> (r: Vec<String>)
    ensures
        views(r@) == words(s@),
{
    let cs = chars_of(s);
    let n = cs.len();
    let mut done: Vec<String> = Vec::new();
    let mut cur: Vec<char> = Vec::new();
    assert(cs@.skip(0) =~= cs@);
    assert(views(done@) + words_acc(cs@, cur@) =~= words(cs@));
    for i in 0..n
        invariant
            n == cs@.len(),
            views(done@) + words_acc(cs@.skip(i as int), cur@) == words(cs@),
    {
        let ghost rest = cs@.skip(i as int);
        let ghost d0 = views(done@);
        let ghost c0 = cur@;
        assert(rest.drop_first() =~= cs@.skip(i + 1));
        assert(rest[0] == cs@[i as int]);
        if is_whitespace(cs[i]) {
            if cur.len() > 0 {
                let w = string_of(&cur);
                done.push(w);
                assert(views(done@) =~= d0.push(c0));
                assert(d0 + (seq![c0] + words_acc(cs@.skip(i + 1), seq![])) =~= d0.push(c0)
                    + words_acc(cs@.skip(i + 1), seq![]));
            } else {
                assert(d0 + (Seq::<Seq<char>>::empty() + words_acc(cs@.skip(i + 1), seq![]))
                    =~= d0 + words_acc(cs@.skip(i + 1), seq![]));
            }
            cur = Vec::new();
            assert(cur@ =~= Seq::<char>::empty());
        } else {
            cur.push(cs[i]);
        }
    }
    assert(cs@.skip(n as int) =~= Seq::<char>::empty());
    if cur.len() > 0 {
        let ghost d0 = views(done@);
        let w = string_of(&cur);
        done.push(w);
        assert(views(done@) =~= d0.push(cur@));
    } else {
        assert(views(done@) + Seq::<Seq<char>>::empty() =~= views(done@));
    }
    done
}


// ---------------------------------------------------------------------------
// Replacement, splitting, joining, numbers
// ---------------------------------------------------------------------------

/// `s` with every occurrence of a non-empty `from` replaced by `to`, as
/// `str::replace` does for such a pattern.
pub fn replace(s: &str, from: &str, to: &str) -> (r: String)
    requires
        from@.len() > 0,
    ensures
        r@ == replace_seq(s@, from@, to@),
{
    let cs = chars_of(s);
    let cf = chars_of(from);
    let n = cs.len();
    let m = cf.len();
    let mut out = String::new();
    let mut i: usize = 0;
    assert(cs@.skip(0) =~= cs@);
    while i < n
        invariant
            n == cs@.len(),
            m == cf@.len(),
            m > 0,
            i <= n,
            out@ + replace_seq(cs@.skip(i as int), cf@, to@) == replace_seq(cs@, cf@, to@),
        decreases n - i,
    {
        let ghost rest = cs@.skip(i as int);
        let ghost o0 = out@;
        if m <= n - i && occurs_at_exec(&cs, &cf, i) {
            assert(rest.take(m as int) =~= cs@.subrange(i as int, i + m));
            assert(rest.skip(m as int) =~= cs@.skip(i + m));
            push_str(&mut out, to);
            assert(o0 + (to@ + replace_seq(cs@.skip(i + m), cf@, to@)) =~= out@ + replace_seq(
                cs@.skip(i + m),
                cf@,
                to@,
            ));
            i = i + m;
        } else {
            assert(rest.drop_first() =~= cs@.skip(i + 1));
            if m <= n - i {
                assert(rest.take(m as int) =~= cs@.subrange(i as int, i + m));
            } else {
                assert(replace_seq(rest.drop_first(), cf@, to@) == rest.drop_first());
                assert(rest =~= seq![rest[0]] + rest.drop_first());
            }
            push_char(&mut out, cs[i]);
            assert(o0 + (seq![cs@[i as int]] + replace_seq(cs@.skip(i + 1), cf@, to@))
                =~= out@ + replace_seq(cs@.skip(i + 1), cf@, to@));
            i = i + 1;
        }
    }
    assert(cs@.skip(n as int) =~= Seq::<char>::empty());
    assert(out@ + Seq::<char>::empty() =~= out@);
    out
}

/// The pieces of `s` separated by a non-empty `sep`, as `str::split` gives
/// them for such a pattern.
pub fn split(s: &str, sep: &str) -> (r: Vec<String>)
    requires
        sep@.len() > 0,
    ensures
        views(r@) == split_seq(s@, sep@),
{
    let cs = chars_of(s);
    let cf = chars_of(sep);
    let n = cs.len();
    let m = cf.len();
    let mut done: Vec<String> = Vec::new();
    let mut cur: Vec<char> = Vec::new();
    let mut i: usize = 0;
    assert(cs@.skip(0) =~= cs@);
    assert(views(done@) + split_acc(cs@, cf@, cur@) =~= split_seq(cs@, cf@));
    while i <= n && m <= n - i
        invariant
            n == cs@.len(),
            m == cf@.len(),
            m > 0,
            i <= n,
            views(done@) + split_acc(cs@.skip(i as int), cf@, cur@) == split_seq(cs@, cf@),
        decreases n - i,
    {
        let ghost rest = cs@.skip(i as int);
        let ghost d0 = views(done@);
        let ghost c0 = cur@;
        assert(rest.take(m as int) =~= cs@.subrange(i as int, i + m));
        if occurs_at_exec(&cs, &cf, i) {
            assert(rest.skip(m as int) =~= cs@.skip(i + m));
            let w = string_of(&cur);
            done.push(w);
            assert(views(done@) =~= d0.push(c0));
            cur = Vec::new();
            assert(d0 + (seq![c0] + split_acc(cs@.skip(i + m), cf@, seq![])) =~= views(done@)
                + split_acc(cs@.skip(i + m), cf@, cur@));
            i = i + m;
        } else {
            assert(rest.drop_first() =~= cs@.skip(i + 1));
            cur.push(cs[i]);
            i = i + 1;
        }
    }
    let ghost rest = cs@.skip(i as int);
    let ghost d0 = views(done@);
    let ghost c0 = cur@;
    let mut k = i;
    while k < n
        invariant
            i <= k <= n,
            n == cs@.len(),
            cur@ == c0 + cs@.subrange(i as int, k as int),
        decreases n - k,
    {
        cur.push(cs[k]);
        assert(c0 + cs@.subrange(i as int, k + 1) =~= (c0 + cs@.subrange(i as int, k as int)).push(
            cs@[k as int],
        ));
        k = k + 1;
    }
    assert(cs@.subrange(i as int, n as int) =~= rest);
    let w = string_of(&cur);
    done.push(w);
    assert(views(done@) =~= d0 + seq![c0 + rest]);
    done
}

/// The parts joined with `sep` between them (`[String]::join`).
pub fn join(parts: &Vec<String>, sep: &str) -> (r: String)
    ensures
        r@ == join_seq(views(parts@), sep@),
{
    let n = parts.len();
    let mut out = String::new();
    let ghost vs = views(parts@);
    assert(vs.take(0) =~= Seq::<Seq<char>>::empty());
    for i in 0..n
        invariant
            n == parts@.len(),
            vs == views(parts@),
            out@ == join_seq(vs.take(i as int), sep@),
    {
        assert(vs.take(i + 1).drop_last() =~= vs.take(i as int));
        assert(vs.take(i + 1).last() == parts@[i as int]@);
        if i > 0 {
            out.append(sep);
        }
        out.append(parts[i].as_str());
    }
    assert(vs.take(n as int) =~= vs);
    out
}

/// The digit character for `d < 10`.
pub fn digit(d: u64) -> (r: char)
    requires
        d < 10,
    ensures
        r == digit_char(d as nat),
{
    if d == 0 {
        '0'
    } else if d == 1 {
        '1'
    } else if d == 2 {
        '2'
    } else if d == 3 {
        '3'
    } else if d == 4 {
        '4'
    } else if d == 5 {
        '5'
    } else if d == 6 {
        '6'
    } else if d == 7 {
        '7'
    } else if d == 8 {
        '8'
    } else {
        '9'
    }
}

/// The decimal representation of `n` (`u64::to_string`).
pub fn decimal_string(n: u64) -> (r: String)
    ensures
        r@ == decimal(n as nat),
    decreases n,
{
    if n < 10 {
        let mut s = String::new();
        push_char(&mut s, digit(n));
        s
    } else {
        let mut s = decimal_string(n / 10);
        push_char(&mut s, digit(n % 10));
        s
    }
}

/// Whether one of the strings of `v` equals `s`.
pub fn list_contains(v: &Vec<String>, s: &str) -> (r: bool)
    ensures
        r == views(v@).contains(s@),
{
    let n = v.len();
    for i in 0..n
        invariant
            n == v@.len(),
            forall|j: int| 0 <= j < i ==> v@[j]@ != s@,
    {
        if str_eq(v[i].as_str(), s) {
            assert(views(v@)[i as int] == s@);
            return true;
        }
    }
    assert forall|j: int| 0 <= j < views(v@).len() implies views(v@)[j] != s@ by {
        assert(views(v@)[j] == v@[j]@);
    }
    false
}

} // verus!
