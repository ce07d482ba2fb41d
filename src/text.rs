//! Character-level facts about lines of text: substring search, removal of a
//! pattern, whitespace trimming and the division of a text into lines.
use vstd::prelude::*;
use vstd::string::{StrSliceExecFns, StringExecFns};

verus! {

/// `p` occurs in `s` at position `i`.
pub open spec fn occurs_at(s: Seq<char>, p: Seq<char>, i: int) -> bool {
    0 <= i && i + p.len() <= s.len() && s.subrange(i, i + p.len()) == p
}

/// `p` occurs somewhere in `s`.
pub open spec fn has_substring(s: Seq<char>, p: Seq<char>) -> bool {
    exists|i: int| occurs_at(s, p, i)
}

/// Every match of `from` in `s`, searched left to right without overlap,
/// replaced by `to`.
pub open spec fn replace_all(s: Seq<char>, from: Seq<char>, to: Seq<char>) -> Seq<char>
    decreases s.len(),
{
    if from.len() == 0 || s.len() < from.len() {
        s
    } else if s.subrange(0, from.len() as int) == from {
        to + replace_all(s.subrange(from.len() as int, s.len() as int), from, to)
    } else {
        seq![s[0]] + replace_all(s.drop_first(), from, to)
    }
}

/// The characters with Unicode's White_Space property.
pub open spec fn is_white_space(c: char) -> bool {
    ('\u{9}' <= c && c <= '\u{d}') || c == ' ' || c == '\u{85}' || c == '\u{a0}'
        || c == '\u{1680}' || ('\u{2000}' <= c && c <= '\u{200a}') || c == '\u{2028}'
        || c == '\u{2029}' || c == '\u{202f}' || c == '\u{205f}' || c == '\u{3000}'
}

pub open spec fn trim_start(s: Seq<char>) -> Seq<char>
    decreases s.len(),
{
    if s.len() > 0 && is_white_space(s[0]) {
        trim_start(s.drop_first())
    } else {
        s
    }
}

pub open spec fn trim_end(s: Seq<char>) -> Seq<char>
    decreases s.len(),
{
    if s.len() > 0 && is_white_space(s.last()) {
        trim_end(s.drop_last())
    } else {
        s
    }
}

/// `s` without leading and trailing whitespace.
pub open spec fn trimmed(s: Seq<char>) -> Seq<char> {
    trim_end(trim_start(s))
}

/// Relies on `str::contains` with a `&str` pattern: true exactly when the
/// pattern occurs in the string.
#[verifier::external_body]
pub(crate) fn str_contains(s: &str, pat: &str) -> (r: bool)
    ensures
        r == has_substring(s@, pat@),
{
    s.contains(pat)
}

/// Relies on `str::replace` with a non-empty `&str` pattern: matches are found
/// left to right, without overlap, and each is replaced.
#[verifier::external_body]
pub(crate) fn str_replace(s: &str, from: &str, to: &str) -> (r: String)
    requires
        from@.len() > 0,
    ensures
        r@ == replace_all(s@, from@, to@),
{
    s.replace(from, to)
}

/// Relies on `str::trim`: leading and trailing White_Space characters removed.
#[verifier::external_body]
pub(crate) fn str_trim(s: &str) -> (r: &str)
    ensures
        r@ == trimmed(s@),
{
    s.trim()
}

/// Index of the first `'\n'` in `t`, or its length where there is none.
pub open spec fn first_newline(t: Seq<char>) -> nat
    decreases t.len(),
{
    if t.len() == 0 {
        0
    } else if t[0] == '\n' {
        0
    } else {
        1 + first_newline(t.drop_first())
    }
}

/// A line as read from a stream: a `'\r'` that stood before its `'\n'` is dropped.
pub open spec fn strip_cr(x: Seq<char>) -> Seq<char> {
    if x.len() > 0 && x.last() == '\r' {
        x.drop_last()
    } else {
        x
    }
}

/// The lines of a text, as a line reader yields them: split at each `'\n'`,
/// the terminator removed (with a `'\r'` before it), and no empty line after
/// a final `'\n'`.
pub open spec fn lines_of(t: Seq<char>) -> Seq<Seq<char>>
    decreases t.len(),
{
    if t.len() == 0 {
        seq![]
    } else {
        let k = first_newline(t) as int;
        if k >= t.len() {
            seq![t]
        } else {
            seq![strip_cr(t.subrange(0, k))] + lines_of(t.subrange(k + 1, t.len() as int))
        }
    }
}

pub proof fn lemma_first_newline(t: Seq<char>, k: int)
    requires
        0 <= k <= t.len(),
        forall|m: int| 0 <= m < k ==> t[m] != '\n',
        k == t.len() || t[k] == '\n',
    ensures
        first_newline(t) == k,
    decreases k,
{
    if k > 0 {
        assert forall|m: int| 0 <= m < k - 1 implies t.drop_first()[m] != '\n' by {
            assert(t.drop_first()[m] == t[m + 1]);
        }
        lemma_first_newline(t.drop_first(), k - 1);
    }
}

/// The lines of `text`, as a line reader yields them.
pub fn split_lines(text: &str) -> (r: Vec<String>)
    ensures
        r@.map_values(|l: String| l@) == lines_of(text@),
{
    let n = text.unicode_len();
    let mut out: Vec<String> = Vec::new();
    let mut start: usize = 0;
    let mut i: usize = 0;
    assert(text@.subrange(0, n as int) =~= text@);
    assert(out@.map_values(|l: String| l@) =~= Seq::<Seq<char>>::empty());
    while i < n
        invariant
            n == text@.len(),
            start <= i <= n,
            forall|m: int| start <= m < i ==> text@[m] != '\n',
            lines_of(text@) == out@.map_values(|l: String| l@) + lines_of(
                text@.subrange(start as int, n as int),
            ),
        decreases n - i,
    {
        if text.get_char(i) == '\n' {
            let ghost t = text@.subrange(start as int, n as int);
            let ghost prev = out@;
            proof {
                lemma_first_newline(t, i - start);
                assert(t.subrange(0, i - start) =~= text@.subrange(start as int, i as int));
                assert(t.subrange(i - start + 1, t.len() as int) =~= text@.subrange(
                    i + 1,
                    n as int,
                ));
            }
            let mut end = i;
            if i > start && text.get_char(i - 1) == '\r' {
                end = i - 1;
            }
            let piece = String::from_str(text.substring_char(start, end));
            assert(piece@ =~= strip_cr(text@.subrange(start as int, i as int)));
            out.push(piece);
            assert(out@.map_values(|l: String| l@) =~= prev.map_values(|l: String| l@) + seq![piece@]);
            start = i + 1;
        }
        i += 1;
    }
    if start < n {
        let ghost t = text@.subrange(start as int, n as int);
        let ghost prev = out@;
        proof {
            lemma_first_newline(t, t.len() as int);
        }
        let piece = String::from_str(text.substring_char(start, n));
        out.push(piece);
        assert(out@.map_values(|l: String| l@) =~= prev.map_values(|l: String| l@) + seq![piece@]);
    } else {
        assert(text@.subrange(start as int, n as int) =~= Seq::<char>::empty());
        assert(out@.map_values(|l: String| l@) + Seq::<Seq<char>>::empty() =~= out@.map_values(|l: String| l@));
    }
    out
}

} // verus!
