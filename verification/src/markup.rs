use vstd::prelude::*;

verus! {

use crate::chars::chars_of;
use crate::chars::push_char;

/// The first position at or after `i` holding a closing angle bracket, or
/// `s.len()` if there is none.
pub open spec fn close_from(s: Seq<char>, i: int) -> int
    decreases s.len() - i,
{
    if !(0 <= i < s.len()) {
        s.len() as int
    } else if s[i] == '>' {
        i
    } else {
        close_from(s, i + 1)
    }
}

/// A flat markup tag starts at `i`: an opening angle bracket, one or more
/// scalar values that are no closing bracket, then a closing bracket.
pub open spec fn tag_at(s: Seq<char>, i: int) -> bool {
    &&& 0 <= i < s.len()
    &&& s[i] == '<'
    &&& i + 1 < close_from(s, i + 1) < s.len()
}

/// `s` holds no markup tag at any position.
pub open spec fn tag_free(s: Seq<char>) -> bool {
    forall|i: int| !tag_at(s, i)
}

proof fn lemma_close_from_bounds(s: Seq<char>, i: int)
    requires
        0 <= i <= s.len(),
    ensures
        i <= close_from(s, i) <= s.len(),
    decreases s.len() - i,
{
    if 0 <= i < s.len() && s[i] != '>' {
        lemma_close_from_bounds(s, i + 1);
    }
}

proof fn lemma_close_from_skip(s: Seq<char>, a: int, b: int)
    requires
        0 <= a <= b <= s.len(),
        forall|k: int| a <= k < b ==> s[k] != '>',
    ensures
        close_from(s, a) == close_from(s, b),
    decreases b - a,
{
    if a < b {
        lemma_close_from_skip(s, a + 1, b);
    }
}

proof fn lemma_close_from_sound(s: Seq<char>, i: int)
    requires
        0 <= i,
    ensures
        close_from(s, i) == s.len() || (i <= close_from(s, i) < s.len() && s[close_from(s, i)]
            == '>'),
        forall|k: int| i <= k < close_from(s, i) ==> s[k] != '>',
    decreases s.len() - i,
{
    if 0 <= i < s.len() && s[i] != '>' {
        lemma_close_from_sound(s, i + 1);
    }
}

/// The scalar values of `s` from `i` on, with every markup tag removed.
pub open spec fn strip_rec(s: Seq<char>, i: int) -> Seq<char>
    decreases s.len() - i,
    via strip_rec_decreases
{
    if !(0 <= i < s.len()) {
        Seq::empty()
    } else if tag_at(s, i) {
        strip_rec(s, close_from(s, i + 1) + 1)
    } else {
        seq![s[i]] + strip_rec(s, i + 1)
    }
}

#[via_fn]
proof fn strip_rec_decreases(s: Seq<char>, i: int) {
    if tag_at(s, i) {
        lemma_close_from_bounds(s, i + 1);
    }
}

/// Stripping never lengthens the text, and only an entirely tag-free rest
/// keeps its length.
proof fn lemma_strip_len(s: Seq<char>, i: int)
    requires
        0 <= i <= s.len(),
    ensures
        strip_rec(s, i).len() <= s.len() - i,
        strip_rec(s, i).len() == s.len() - i ==> strip_rec(s, i) == s.subrange(
            i,
            s.len() as int,
        ),
    decreases s.len() - i,
{
    if i == s.len() {
        assert(strip_rec(s, i) == Seq::<char>::empty());
        assert(s.subrange(i, s.len() as int) =~= Seq::<char>::empty());
    } else if tag_at(s, i) {
        lemma_close_from_bounds(s, i + 1);
        lemma_strip_len(s, close_from(s, i + 1) + 1);
    } else {
        lemma_strip_len(s, i + 1);
        if strip_rec(s, i).len() == s.len() - i {
            assert(strip_rec(s, i) =~= s.subrange(i, s.len() as int));
        }
    }
}

/// Without any tag, stripping is the identity on the rest of the text.
pub proof fn lemma_tag_free_strip(s: Seq<char>, i: int)
    requires
        tag_free(s),
        0 <= i <= s.len(),
    ensures
        strip_rec(s, i) == s.subrange(i, s.len() as int),
    decreases s.len() - i,
{
    if i < s.len() {
        lemma_tag_free_strip(s, i + 1);
        assert(strip_rec(s, i) =~= s.subrange(i, s.len() as int));
    } else {
        assert(strip_rec(s, i) =~= s.subrange(i, s.len() as int));
    }
}

/// A contiguous part of tag-free text is itself tag-free.
pub proof fn lemma_tag_free_subrange(s: Seq<char>, a: int, b: int)
    requires
        tag_free(s),
        0 <= a <= b <= s.len(),
    ensures
        tag_free(s.subrange(a, b)),
{
    let t = s.subrange(a, b);
    assert forall|i: int| !tag_at(t, i) by {
        if 0 <= i < t.len() && t[i] == '<' {
            let c = close_from(t, i + 1);
            if i + 1 < c < t.len() {
                lemma_close_from_sound(t, i + 1);
                assert forall|k: int| a + i + 1 <= k < a + c implies #[trigger] s[k] != '>' by {
                    assert(s[k] == t[k - a]);
                }
                lemma_close_from_skip(s, a + i + 1, a + c);
                assert(s[a + c] == t[c]);
                assert(close_from(s, a + c) == a + c);
                assert(tag_at(s, a + i));
                assert(false);
            }
        }
    }
}

/// Scan for the first closing bracket strictly after position `i`.
fn find_close(chars: &Vec<char>, i: usize) -> (j: usize)
    requires
        i < chars@.len(),
    ensures
        j == close_from(chars@, i + 1),
{
    let n = chars.len();
    let mut j: usize = i + 1;
    while j < n && chars[j] != '>'
        invariant
            i + 1 <= j <= n,
            n == chars@.len(),
            forall|k: int| i + 1 <= k < j ==> chars@[k] != '>',
        decreases n - j,
    {
        j = j + 1;
    }
    proof {
        lemma_close_from_skip(chars@, i + 1, j as int);
    }
    j
}

/// Remove every flat `<`…`>` markup tag of `text`. `None` signals that no
/// tag was removed — the text is not of the kind this pipeline targets;
/// otherwise the stripped text is returned, even when it is empty.
pub fn strip_tags(text: &str) -> (r: Option<String>)
    ensures
        match r {
            Some(t) => t@ == strip_rec(text@, 0) && strip_rec(text@, 0).len() < text@.len(),
            None => strip_rec(text@, 0) == text@,
        },
        r is None <==> strip_rec(text@, 0).len() == text@.len(),
{
    let ghost s = text@;
    let chars = chars_of(text);
    let n = chars.len();
    let mut out = String::new();
    let mut removed = false;
    let mut i: usize = 0;
    while i < n
        invariant
            chars@ == s,
            text@ == s,
            n == s.len(),
            i <= n,
            out@ + strip_rec(s, i as int) == strip_rec(s, 0),
            out@.len() <= i,
            removed <==> out@.len() < i,
        decreases n - i,
    {
        let c = chars[i];
        if c == '<' {
            let j = find_close(&chars, i);
            if j < n && j > i + 1 {
                proof {
                    assert(tag_at(s, i as int));
                    assert(strip_rec(s, i as int) == strip_rec(s, j + 1));
                }
                removed = true;
                i = j + 1;
                continue;
            }
            proof {
                assert(!tag_at(s, i as int));
            }
        } else {
            proof {
                assert(!tag_at(s, i as int));
            }
        }
        push_char(&mut out, c);
        proof {
            assert(strip_rec(s, i as int) == seq![s[i as int]] + strip_rec(s, i + 1));
            assert(out@ + strip_rec(s, i + 1) =~= strip_rec(s, 0));
        }
        i = i + 1;
    }
    proof {
        assert(strip_rec(s, n as int) == Seq::<char>::empty());
        assert(out@ =~= strip_rec(s, 0));
        lemma_strip_len(s, 0);
        if out@.len() == n {
            assert(strip_rec(s, 0) =~= s);
        }
    }
    if removed {
        Some(out)
    } else {
        None
    }
}

} // verus!
