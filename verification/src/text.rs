use vstd::prelude::*;
use vstd::std_specs::iter::IteratorSpec;

verus! {

/// Whether `c` has the Unicode property White_Space.
pub open spec fn is_white_space(c: char) -> bool {
    c == ' ' || ('\u{9}' <= c && c <= '\u{d}') || c == '\u{85}' || c == '\u{a0}' || c == '\u{1680}'
        || ('\u{2000}' <= c && c <= '\u{200a}') || c == '\u{2028}' || c == '\u{2029}' || c
        == '\u{202f}' || c == '\u{205f}' || c == '\u{3000}'
}

/// `s` without the white space at its start.
pub open spec fn trim_start(s: Seq<char>) -> Seq<char>
    decreases s.len(),
{
    if s.len() > 0 && is_white_space(s.first()) {
        trim_start(s.drop_first())
    } else {
        s
    }
}

/// `s` without the white space at its end.
pub open spec fn trim_end(s: Seq<char>) -> Seq<char>
    decreases s.len(),
{
    if s.len() > 0 && is_white_space(s.last()) {
        trim_end(s.drop_last())
    } else {
        s
    }
}

/// `s` without the white space at either end; what lies between is kept as
/// it is.
pub open spec fn trimmed(s: Seq<char>) -> Seq<char> {
    trim_end(trim_start(s))
}

/// Every character of `s` is white space.
pub open spec fn is_blank(s: Seq<char>) -> bool {
    forall|i: int| 0 <= i < s.len() ==> is_white_space(s[i])
}

/// Whether `c` has the Unicode property White_Space.
pub fn is_whitespace(c: char) -> (b: bool)
    ensures
        b == is_white_space(c),
{
    c == ' ' || ('\u{9}' <= c && c <= '\u{d}') || c == '\u{85}' || c == '\u{a0}' || c == '\u{1680}'
        || ('\u{2000}' <= c && c <= '\u{200a}') || c == '\u{2028}' || c == '\u{2029}' || c
        == '\u{202f}' || c == '\u{205f}' || c == '\u{3000}'
}

/// Trimming at the start cuts off exactly the white space before the first
/// character that is none.
pub proof fn lemma_trim_start_is_skip(s: Seq<char>, n: int)
    requires
        0 <= n <= s.len(),
        forall|i: int| 0 <= i < n ==> is_white_space(s[i]),
        n < s.len() ==> !is_white_space(s[n]),
    ensures
        trim_start(s) == s.skip(n),
    decreases n,
{
    if n > 0 {
        lemma_trim_start_is_skip(s.drop_first(), n - 1);
    }
}

/// Trimming at the end keeps exactly what comes before the white space that
/// follows the last character that is none.
pub proof fn lemma_trim_end_is_take(s: Seq<char>, n: int)
    requires
        0 <= n <= s.len(),
        forall|i: int| n <= i < s.len() ==> is_white_space(s[i]),
        n > 0 ==> !is_white_space(s[n - 1]),
    ensures
        trim_end(s) == s.take(n),
    decreases s.len() - n,
{
    if n < s.len() {
        lemma_trim_end_is_take(s.drop_last(), n);
    }
}

/// A text trims to nothing exactly when all of it is white space.
pub proof fn lemma_trimmed_empty_iff_blank(s: Seq<char>)
    ensures
        trimmed(s).len() == 0 <==> is_blank(s),
    decreases s.len(),
{
    if s.len() > 0 && is_white_space(s.first()) {
        let rest = s.drop_first();
        lemma_trimmed_empty_iff_blank(rest);
        assert(is_blank(rest) ==> is_blank(s)) by {
            assert forall|i: int| 0 < i < s.len() implies s[i] == rest[i - 1] by {}
        }
        assert(is_blank(s) ==> is_blank(rest)) by {
            assert forall|i: int| 0 <= i < rest.len() implies rest[i] == s[i + 1] by {}
        }
    } else if s.len() > 0 {
        lemma_trim_end_keeps_start(s);
    }
}

/// Trimming at the end never removes a first character that is no white
/// space.
pub proof fn lemma_trim_end_keeps_start(s: Seq<char>)
    requires
        s.len() > 0,
        !is_white_space(s.first()),
    ensures
        trim_end(s).len() > 0,
        trim_end(s).first() == s.first(),
    decreases s.len(),
{
    if is_white_space(s.last()) {
        lemma_trim_end_keeps_start(s.drop_last());
    }
}

/// The text without the white space at either end.
pub fn trim(s: &str) -> (t: String)
    ensures
        t@ == trimmed(s@),
{
    let total = s.unicode_len();
    let mut chars = s.chars();
    // `start..end` spans from the first character that is no white space to
    // the last one, among those seen so far.
    let mut seen: usize = 0;
    let mut start: usize = 0;
    let mut end: usize = 0;
    while seen < total
        invariant
            chars.obeys_prophetic_iter_laws(),
            chars.remaining() == s@.skip(seen as int),
            total == s@.len(),
            start <= end <= seen <= total,
            start == end ==> start == seen,
            forall|i: int| 0 <= i < start ==> is_white_space(s@[i]),
            forall|i: int| end <= i < seen ==> is_white_space(s@[i]),
            start < end ==> !is_white_space(s@[start as int]) && !is_white_space(s@[end - 1]),
        decreases total - seen,
    {
        let c = chars.next().unwrap();
        seen = seen + 1;
        if !is_whitespace(c) {
            if start == end {
                start = seen - 1;
            }
            end = seen;
        } else if start == end {
            start = seen;
            end = seen;
        }
    }
    proof {
        lemma_trim_start_is_skip(s@, start as int);
        lemma_trim_end_is_take(s@.skip(start as int), end - start);
    }
    s.substring_char(start, end).to_owned()
}

} // verus!
