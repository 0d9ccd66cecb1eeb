use vstd::prelude::*;

verus! {

use crate::chars::chars_of;
use crate::chars::string_from_range;
use vstd::pervasive::unreached;

/// The prefix of `s` of length `plen` reappears starting at position `r`.
pub open spec fn occurs_at(s: Seq<char>, plen: int, r: int) -> bool {
    &&& 0 <= plen
    &&& 0 <= r
    &&& r + plen <= s.len()
    &&& forall|j: int| 0 <= j < plen ==> #[trigger] s[r + j] == s[j]
}

/// Position `i` is a repetition boundary: the first `i` scalar values of `s`
/// reappear immediately, starting at position `i`.
pub open spec fn is_boundary(s: Seq<char>, i: int) -> bool {
    1 <= i && occurs_at(s, i, i)
}

/// The smallest repetition boundary at or after `i`, or `s.len()` if none.
pub open spec fn first_boundary_from(s: Seq<char>, i: int) -> int
    decreases s.len() - i,
{
    if !(1 <= i < s.len()) {
        s.len() as int
    } else if is_boundary(s, i) {
        i
    } else {
        first_boundary_from(s, i + 1)
    }
}

/// The largest position in `1..=r` where the prefix of length `plen`
/// reappears, or `0` if there is none.
pub open spec fn last_occurrence_upto(s: Seq<char>, plen: int, r: int) -> int
    decreases r,
{
    if r < 1 {
        0
    } else if occurs_at(s, plen, r) {
        r
    } else {
        last_occurrence_upto(s, plen, r - 1)
    }
}

/// What collapsing returns: `s` itself when no boundary exists, otherwise the
/// suffix of `s` that starts at the last reappearance of the prefix found at
/// the smallest boundary.
pub open spec fn collapse_spec(s: Seq<char>) -> Seq<char> {
    let b = first_boundary_from(s, 1);
    if b == s.len() {
        s
    } else {
        s.subrange(last_occurrence_upto(s, b, s.len() - 1), s.len() as int)
    }
}

proof fn lemma_first_boundary_step(s: Seq<char>, a: int, b: int)
    requires
        1 <= a <= b,
        forall|i: int| a <= i < b ==> !is_boundary(s, i),
    ensures
        first_boundary_from(s, a) == first_boundary_from(s, b),
    decreases b - a,
{
    if a < b {
        lemma_first_boundary_step(s, a + 1, b);
    }
}

proof fn lemma_last_occurrence_found(s: Seq<char>, plen: int, found: int, r: int)
    requires
        1 <= found <= r,
        occurs_at(s, plen, found),
        forall|k: int| found < k <= r ==> !occurs_at(s, plen, k),
    ensures
        last_occurrence_upto(s, plen, r) == found,
    decreases r,
{
    if r > found {
        lemma_last_occurrence_found(s, plen, found, r - 1);
    }
}

/// Law: collapsing recovers the last, most complete copy. Take `s = a + a + b`
/// with `a` non-empty and `b` a proper extension of `a` that keeps `a` as its
/// prefix. Provided no repetition boundary lies below `a.len()` and `a` does
/// not reappear in `s` after the start of `b`, collapsing `s` yields exactly
/// `b`.
pub proof fn lemma_collapse_recovers_tail(a: Seq<char>, b: Seq<char>)
    requires
        1 <= a.len() < b.len(),
        a == b.take(a.len() as int),
        forall|i: int| 1 <= i < a.len() ==> !is_boundary(a + a + b, i),
        forall|r: int|
            2 * a.len() < r < (a + a + b).len() ==> !occurs_at(a + a + b, a.len() as int, r),
    ensures
        collapse_spec(a + a + b) == b,
{
    let s = a + a + b;
    let al = a.len() as int;
    let n = s.len() as int;
    assert(occurs_at(s, al, al)) by {
        assert forall|j: int| 0 <= j < al implies #[trigger] s[al + j] == s[j] by {
            assert(s[al + j] == a[j]);
            assert(s[j] == a[j]);
        }
    }
    assert(is_boundary(s, al));
    lemma_first_boundary_step(s, 1, al);
    assert(first_boundary_from(s, 1) == al);
    assert(occurs_at(s, al, 2 * al)) by {
        assert forall|j: int| 0 <= j < al implies #[trigger] s[2 * al + j] == s[j] by {
            assert(s[2 * al + j] == b[j]);
            assert(b[j] == b.take(al)[j]);
            assert(s[j] == a[j]);
        }
    }
    lemma_last_occurrence_found(s, al, 2 * al, n - 1);
    assert(collapse_spec(s) =~= b);
}

/// Whether the prefix of length `plen` of `chars` reappears at position `r`.
fn prefix_occurs_at(chars: &Vec<char>, plen: usize, r: usize) -> (b: bool)
    requires
        plen <= chars@.len(),
        r <= chars@.len(),
    ensures
        b == occurs_at(chars@, plen as int, r as int),
{
    let n = chars.len();
    if n - r < plen {
        return false;
    }
    let mut j: usize = 0;
    while j < plen
        invariant
            j <= plen,
            plen <= n,
            r + plen <= n,
            n == chars@.len(),
            forall|k: int| 0 <= k < j ==> #[trigger] chars@[r + k] == chars@[k],
        decreases plen - j,
    {
        if chars[r + j] != chars[j] {
            proof {
                assert(!occurs_at(chars@, plen as int, r as int));
            }
            return false;
        }
        j = j + 1;
    }
    true
}

/// Scan from the end for the last position where the prefix of length `plen`
/// reappears; a boundary at `plen` guarantees that one exists.
fn last_occurrence_search(chars: &Vec<char>, plen: usize) -> (r: usize)
    requires
        is_boundary(chars@, plen as int),
    ensures
        1 <= r < chars@.len(),
        r == last_occurrence_upto(chars@, plen as int, chars@.len() - 1),
        occurs_at(chars@, plen as int, r as int),
{
    let n = chars.len();
    let mut r_idx: usize = n - 1;
    loop
        invariant
            1 <= r_idx <= n - 1,
            n == chars@.len(),
            plen <= n,
            is_boundary(chars@, plen as int),
            forall|k: int| r_idx < k < n ==> !occurs_at(chars@, plen as int, k),
        decreases r_idx,
    {
        if prefix_occurs_at(chars, plen, r_idx) {
            proof {
                lemma_last_occurrence_found(chars@, plen as int, r_idx as int, n - 1);
            }
            return r_idx;
        }
        if r_idx == 1 {
            proof {
                assert(occurs_at(chars@, plen as int, plen as int));
                assert(false);
            }
            return unreached();
        }
        r_idx = r_idx - 1;
    }
}

/// Collapse the self-repeating growth pattern of `text`: find the smallest
/// boundary at which a growing prefix of `text` reappears, then return the
/// suffix that starts at the last reappearance of that prefix. Text with no
/// such boundary is returned unchanged.
pub fn remove_text_reps(text: String) -> (r: String)
    ensures
        r@ == collapse_spec(text@),
        (forall|i: int| !is_boundary(text@, i)) ==> r@ == text@,
{
    let ghost s = text@;
    let chars = chars_of(text.as_str());
    let n = chars.len();
    let mut idx: usize = 1;
    while idx < n
        invariant
            chars@ == s,
            text@ == s,
            n == s.len(),
            1 <= idx,
            forall|i: int| 1 <= i < idx ==> !is_boundary(s, i),
        decreases n - idx,
    {
        if prefix_occurs_at(&chars, idx, idx) {
            proof {
                assert(is_boundary(text@, idx as int));
                assert(first_boundary_from(s, idx as int) == idx);
                lemma_first_boundary_step(s, 1, idx as int);
                assert(first_boundary_from(s, 1) == idx);
            }
            let r_idx = last_occurrence_search(&chars, idx);
            let out = string_from_range(&chars, r_idx, n);
            proof {
                assert(out@ =~= collapse_spec(s));
            }
            return out;
        }
        idx = idx + 1;
    }
    proof {
        if 1 <= s.len() {
            lemma_first_boundary_step(s, 1, s.len() as int);
        }
        assert(collapse_spec(s) == s);
    }
    text
}

} // verus!
