use vstd::prelude::*;

verus! {

use vstd::string::StrSliceExecFns;

/// An opening dialogue delimiter: a corner bracket or a fullwidth
/// parenthesis.
pub open spec fn is_open_delim(c: char) -> bool {
    c == '\u{300C}' || c == '\u{FF08}'
}

/// A closing dialogue delimiter: a corner bracket or a fullwidth
/// parenthesis.
pub open spec fn is_close_delim(c: char) -> bool {
    c == '\u{300D}' || c == '\u{FF09}'
}

/// The lowest position at or after `i` holding an opening delimiter, or
/// `s.len()` if there is none.
pub open spec fn first_open_from(s: Seq<char>, i: int) -> int
    decreases s.len() - i,
{
    if !(0 <= i < s.len()) {
        s.len() as int
    } else if is_open_delim(s[i]) {
        i
    } else {
        first_open_from(s, i + 1)
    }
}

/// The highest position at or below `i` holding a closing delimiter, or `-1`
/// if there is none.
pub open spec fn last_close_upto(s: Seq<char>, i: int) -> int
    decreases i + 1,
{
    if !(0 <= i < s.len()) {
        -1
    } else if is_close_delim(s[i]) {
        i
    } else {
        last_close_upto(s, i - 1)
    }
}

/// What extraction returns: the span from the lowest opening delimiter
/// through the highest closing delimiter, the two searched independently.
/// `None` when either delimiter is missing, when the closing delimiter is the
/// final scalar value (the capture is truncated there), or when the closing
/// delimiter comes before the opening one, so that no well-bounded span
/// exists.
pub open spec fn extract_spec(s: Seq<char>) -> Option<Seq<char>> {
    let b = first_open_from(s, 0);
    let e = last_close_upto(s, s.len() - 1);
    if b == s.len() || e < 0 {
        None
    } else if e + 1 == s.len() || b > e {
        None
    } else {
        Some(s.subrange(b, e + 1))
    }
}

pub proof fn lemma_first_open_bounds(s: Seq<char>, i: int)
    requires
        0 <= i <= s.len(),
    ensures
        i <= first_open_from(s, i) <= s.len(),
    decreases s.len() - i,
{
    if i < s.len() && !is_open_delim(s[i]) {
        lemma_first_open_bounds(s, i + 1);
    }
}

pub proof fn lemma_last_close_bounds(s: Seq<char>, i: int)
    requires
        -1 <= i < s.len(),
    ensures
        -1 <= last_close_upto(s, i) <= i,
    decreases i + 1,
{
    if 0 <= i && !is_close_delim(s[i]) {
        lemma_last_close_bounds(s, i - 1);
    }
}

proof fn lemma_first_open_skip(s: Seq<char>, a: int, b: int)
    requires
        0 <= a <= b <= s.len(),
        forall|k: int| a <= k < b ==> !is_open_delim(s[k]),
    ensures
        first_open_from(s, a) == first_open_from(s, b),
    decreases b - a,
{
    if a < b {
        lemma_first_open_skip(s, a + 1, b);
    }
}

proof fn lemma_last_close_skip(s: Seq<char>, a: int, b: int)
    requires
        -1 <= a <= b < s.len(),
        forall|k: int| a < k <= b ==> !is_close_delim(s[k]),
    ensures
        last_close_upto(s, b) == last_close_upto(s, a),
    decreases b - a,
{
    if a < b {
        lemma_last_close_skip(s, a, b - 1);
    }
}

/// Whether one scalar value opens a dialogue span.
pub fn char_is_open(c: char) -> (r: bool)
    ensures
        r == is_open_delim(c),
{
    c == '\u{300C}' || c == '\u{FF08}'
}

/// Whether one scalar value closes a dialogue span.
pub fn char_is_close(c: char) -> (r: bool)
    ensures
        r == is_close_delim(c),
{
    c == '\u{300D}' || c == '\u{FF09}'
}

/// Narrow `text` to its dialogue span: from the first opening delimiter
/// through the last closing delimiter. `None` signals that no complete span
/// was found — either delimiter is missing, the closing delimiter ends the
/// text, or the closing delimiter precedes the opening one; the caller falls
/// back to the unnarrowed text.
pub fn extract_dialogue(text: &str) -> (r: Option<String>)
    ensures
        match r {
            Some(t) => extract_spec(text@) == Some(t@),
            None => extract_spec(text@) is None,
        },
{
    let ghost s = text@;
    let n = text.unicode_len();
    let mut b: usize = 0;
    while b < n && !char_is_open(text.get_char(b))
        invariant
            b <= n,
            n == s.len(),
            s == text@,
            forall|k: int| 0 <= k < b ==> !is_open_delim(s[k]),
        decreases n - b,
    {
        b = b + 1;
    }
    proof {
        lemma_first_open_skip(s, 0, b as int);
    }
    if b == n {
        return None;
    }
    let mut k: usize = n;
    while k > 0
        invariant
            k <= n,
            n == s.len(),
            s == text@,
            b < n,
            first_open_from(s, 0) == b,
            forall|j: int| k <= j < n ==> !is_close_delim(s[j]),
        decreases k,
    {
        k = k - 1;
        if char_is_close(text.get_char(k)) {
            proof {
                lemma_last_close_skip(s, k as int, n - 1);
                assert(last_close_upto(s, n - 1) == k);
            }
            let end = k + 1;
            if end == n {
                return None;
            }
            if b > k {
                return None;
            }
            return Some(text.substring_char(b, end).to_owned());
        }
    }
    proof {
        lemma_last_close_skip(s, -1, n - 1);
    }
    None
}

} // verus!
