use vstd::prelude::*;

verus! {

use crate::chars::chars_of;
use crate::chars::push_char;
use crate::collapse::collapse_spec;
use crate::collapse::remove_text_reps;
use crate::dialogue::extract_dialogue;
use crate::dialogue::extract_spec;
use crate::dialogue::lemma_first_open_bounds;
use crate::dialogue::lemma_last_close_bounds;
use crate::markup::lemma_tag_free_strip;
use crate::markup::lemma_tag_free_subrange;
use crate::markup::strip_rec;
use crate::markup::strip_tags;
use crate::markup::tag_free;
use crate::script::has_target;
use crate::script::is_jp;
use vstd::string::StrSliceExecFns;

/// A whitespace scalar value, as the Unicode White_Space property lists them.
pub open spec fn is_space(c: char) -> bool {
    ||| c as u32 == 0x20
    ||| 0x09 <= c as u32 <= 0x0D
    ||| c as u32 == 0x85
    ||| c as u32 == 0xA0
    ||| c as u32 == 0x1680
    ||| 0x2000 <= c as u32 <= 0x200A
    ||| c as u32 == 0x2028
    ||| c as u32 == 0x2029
    ||| c as u32 == 0x202F
    ||| c as u32 == 0x205F
    ||| c as u32 == 0x3000
}

/// A line-break scalar value; the pipeline deletes these at its last step,
/// with no distinction among the newline conventions they make up.
pub open spec fn is_line_break(c: char) -> bool {
    c as u32 == 0x0A || c as u32 == 0x0D
}

/// The lowest position at or after `i` holding a non-whitespace scalar value,
/// or `s.len()` if there is none.
pub open spec fn first_nonspace_from(s: Seq<char>, i: int) -> int
    decreases s.len() - i,
{
    if !(0 <= i < s.len()) {
        s.len() as int
    } else if !is_space(s[i]) {
        i
    } else {
        first_nonspace_from(s, i + 1)
    }
}

/// The highest position at or below `i` holding a non-whitespace scalar
/// value, or `-1` if there is none.
pub open spec fn last_nonspace_upto(s: Seq<char>, i: int) -> int
    decreases i + 1,
{
    if !(0 <= i < s.len()) {
        -1
    } else if !is_space(s[i]) {
        i
    } else {
        last_nonspace_upto(s, i - 1)
    }
}

/// `s` without leading and trailing whitespace.
pub open spec fn trim_spec(s: Seq<char>) -> Seq<char> {
    let a = first_nonspace_from(s, 0);
    let b = last_nonspace_upto(s, s.len() - 1);
    if a == s.len() || b < 0 {
        Seq::empty()
    } else {
        s.subrange(a, b + 1)
    }
}

proof fn lemma_first_nonspace_skip(s: Seq<char>, a: int, b: int)
    requires
        0 <= a <= b <= s.len(),
        forall|k: int| a <= k < b ==> is_space(s[k]),
    ensures
        first_nonspace_from(s, a) == first_nonspace_from(s, b),
    decreases b - a,
{
    if a < b {
        lemma_first_nonspace_skip(s, a + 1, b);
    }
}

proof fn lemma_last_nonspace_skip(s: Seq<char>, a: int, b: int)
    requires
        -1 <= a <= b < s.len(),
        forall|k: int| a < k <= b ==> is_space(s[k]),
    ensures
        last_nonspace_upto(s, b) == last_nonspace_upto(s, a),
    decreases b - a,
{
    if a < b {
        lemma_last_nonspace_skip(s, a, b - 1);
    }
}

pub proof fn lemma_first_nonspace_bounds(s: Seq<char>, i: int)
    requires
        0 <= i <= s.len(),
    ensures
        i <= first_nonspace_from(s, i) <= s.len(),
        first_nonspace_from(s, i) < s.len() ==> !is_space(s[first_nonspace_from(s, i)]),
    decreases s.len() - i,
{
    if i < s.len() && is_space(s[i]) {
        lemma_first_nonspace_bounds(s, i + 1);
    }
}

proof fn lemma_last_nonspace_ge(s: Seq<char>, i: int, j: int)
    requires
        0 <= i <= j < s.len(),
        !is_space(s[i]),
    ensures
        last_nonspace_upto(s, j) >= i,
    decreases j,
{
    if i < j && is_space(s[j]) {
        lemma_last_nonspace_ge(s, i, j - 1);
    }
}

pub proof fn lemma_last_nonspace_bounds(s: Seq<char>, i: int)
    requires
        -1 <= i < s.len(),
    ensures
        -1 <= last_nonspace_upto(s, i) <= i,
    decreases i + 1,
{
    if 0 <= i && is_space(s[i]) {
        lemma_last_nonspace_bounds(s, i - 1);
    }
}

/// Whether one scalar value is whitespace.
pub fn char_is_space(c: char) -> (r: bool)
    ensures
        r == is_space(c),
{
    let u = c as u32;
    u == 0x20 || (0x09 <= u && u <= 0x0D) || u == 0x85 || u == 0xA0 || u == 0x1680 || (0x2000 <= u
        && u <= 0x200A) || u == 0x2028 || u == 0x2029 || u == 0x202F || u == 0x205F || u == 0x3000
}

/// Whether one scalar value is a line break.
pub fn char_is_line_break(c: char) -> (r: bool)
    ensures
        r == is_line_break(c),
{
    let u = c as u32;
    u == 0x0A || u == 0x0D
}

/// Cut leading and trailing whitespace off `text`.
pub fn trim_text<'a>(text: &'a str) -> (r: &'a str)
    ensures
        r@ == trim_spec(text@),
{
    let ghost s = text@;
    let n = text.unicode_len();
    let mut a: usize = 0;
    while a < n && char_is_space(text.get_char(a))
        invariant
            a <= n,
            n == s.len(),
            s == text@,
            forall|k: int| 0 <= k < a ==> is_space(s[k]),
        decreases n - a,
    {
        a = a + 1;
    }
    proof {
        lemma_first_nonspace_skip(s, 0, a as int);
    }
    if a == n {
        proof {
            assert(trim_spec(s) =~= Seq::<char>::empty());
            assert(s.subrange(0, 0) =~= Seq::<char>::empty());
        }
        return text.substring_char(0, 0);
    }
    let mut k: usize = n - 1;
    loop
        invariant
            a <= k < n,
            n == s.len(),
            s == text@,
            !is_space(s[a as int]),
            first_nonspace_from(s, 0) == a,
            forall|j: int| k < j < n ==> is_space(s[j]),
        decreases k,
    {
        if !char_is_space(text.get_char(k)) {
            proof {
                lemma_last_nonspace_skip(s, k as int, n - 1);
                assert(last_nonspace_upto(s, n - 1) == k);
            }
            return text.substring_char(a, k + 1);
        }
        k = k - 1;
    }
}

/// The scalar values of `s` from `i` on, with every line break removed.
pub open spec fn strip_breaks_rec(s: Seq<char>, i: int) -> Seq<char>
    decreases s.len() - i,
{
    if !(0 <= i < s.len()) {
        Seq::empty()
    } else if is_line_break(s[i]) {
        strip_breaks_rec(s, i + 1)
    } else {
        seq![s[i]] + strip_breaks_rec(s, i + 1)
    }
}

/// Delete every line-break scalar value of `text`; nothing replaces them.
pub fn remove_line_breaks(text: &str) -> (r: String)
    ensures
        r@ == strip_breaks_rec(text@, 0),
{
    let ghost s = text@;
    let chars = chars_of(text);
    let n = chars.len();
    let mut out = String::new();
    let mut i: usize = 0;
    while i < n
        invariant
            chars@ == s,
            n == s.len(),
            i <= n,
            out@ + strip_breaks_rec(s, i as int) == strip_breaks_rec(s, 0),
        decreases n - i,
    {
        let c = chars[i];
        if !char_is_line_break(c) {
            push_char(&mut out, c);
        }
        proof {
            assert(out@ + strip_breaks_rec(s, i + 1) =~= strip_breaks_rec(s, 0));
        }
        i = i + 1;
    }
    proof {
        assert(out@ =~= strip_breaks_rec(s, 0));
    }
    out
}

/// The whole pipeline on one capture: `None` when no target-script scalar
/// value is present; otherwise the text is trimmed, narrowed to its dialogue
/// span where one exists, and stripped of markup tags; when stripping removed
/// nothing the pipeline again signals `None`; otherwise the repetition
/// pattern is collapsed and line breaks are deleted.
pub open spec fn process_spec(s: Seq<char>) -> Option<Seq<char>> {
    if !has_target(s) {
        None
    } else {
        let t = trim_spec(s);
        let d = match extract_spec(t) {
            Some(x) => x,
            None => t,
        };
        if strip_rec(d, 0).len() == d.len() {
            None
        } else {
            Some(strip_breaks_rec(collapse_spec(strip_rec(d, 0)), 0))
        }
    }
}

/// Law: the markup gate. Text without any markup tag is never processed —
/// whatever else holds of it, the pipeline signals "not applicable", because
/// no contiguous part of tag-free text holds a tag either, so stripping
/// removes nothing.
pub proof fn lemma_markup_gate(s: Seq<char>)
    requires
        tag_free(s),
    ensures
        process_spec(s) is None,
{
    if has_target(s) {
        let a = first_nonspace_from(s, 0);
        let b = last_nonspace_upto(s, s.len() - 1);
        lemma_first_nonspace_bounds(s, 0);
        lemma_last_nonspace_bounds(s, s.len() - 1);
        let t = trim_spec(s);
        if a == s.len() || b < 0 {
            assert(tag_free(t));
        } else {
            lemma_last_nonspace_ge(s, a, s.len() - 1);
            lemma_tag_free_subrange(s, a, b + 1);
        }
        let d = match extract_spec(t) {
            Some(x) => x,
            None => t,
        };
        match extract_spec(t) {
            Some(x) => {
                let eb = crate::dialogue::first_open_from(t, 0);
                let ee = crate::dialogue::last_close_upto(t, t.len() - 1);
                lemma_first_open_bounds(t, 0);
                lemma_last_close_bounds(t, t.len() - 1);
                lemma_tag_free_subrange(t, eb, ee + 1);
            },
            None => {
            },
        }
        lemma_tag_free_strip(d, 0);
        assert(strip_rec(d, 0) =~= d);
    }
}

/// Run the pipeline on one capture and return the normalized text, or `None`
/// when the capture is not the kind of text this pipeline targets: it holds
/// no target-script scalar value, or stripping removed no markup tag.
pub fn process_text(text: String) -> (r: Option<String>)
    ensures
        match r {
            Some(t) => process_spec(text@) == Some(t@),
            None => process_spec(text@) is None,
        },
        !has_target(text@) ==> r is None,
        tag_free(text@) ==> r is None,
{
    proof {
        if tag_free(text@) {
            lemma_markup_gate(text@);
        }
    }
    if !is_jp(text.as_str()) {
        return None;
    }
    let trimmed = trim_text(text.as_str());
    let narrowed: String = match extract_dialogue(trimmed) {
        Some(d) => d,
        None => trimmed.to_owned(),
    };
    match strip_tags(narrowed.as_str()) {
        None => None,
        Some(stripped) => {
            let collapsed = remove_text_reps(stripped);
            Some(remove_line_breaks(collapsed.as_str()))
        },
    }
}

} // verus!
