use vstd::prelude::*;

verus! {

use vstd::string::StrSliceExecFns;

/// Collect the scalar values of a string into a vector, one per element.
pub fn chars_of(text: &str) -> (r: Vec<char>)
    ensures
        r@ == text@,
{
    let n = text.unicode_len();
    let mut r: Vec<char> = Vec::new();
    let mut i: usize = 0;
    while i < n
        invariant
            i <= n,
            n == text@.len(),
            r@ == text@.take(i as int),
        decreases n - i,
    {
        r.push(text.get_char(i));
        proof {
            assert(r@ =~= text@.take(i + 1));
        }
        i = i + 1;
    }
    proof {
        assert(r@ =~= text@);
    }
    r
}

/// Relies on String::push: appends one scalar value at the end of the string.
#[verifier::external_body]
pub fn push_char(s: &mut String, c: char)
    ensures
        final(s)@ == old(s)@.push(c),
{
    s.push(c);
}

/// Copy the scalar values of `v` at positions `from..to` into a fresh string.
pub fn string_from_range(v: &Vec<char>, from: usize, to: usize) -> (r: String)
    requires
        from <= to <= v@.len(),
    ensures
        r@ == v@.subrange(from as int, to as int),
{
    let mut r = String::new();
    let mut i: usize = from;
    while i < to
        invariant
            from <= i <= to <= v@.len(),
            r@ == v@.subrange(from as int, i as int),
        decreases to - i,
    {
        push_char(&mut r, v[i]);
        proof {
            assert(r@ =~= v@.subrange(from as int, i + 1));
        }
        i = i + 1;
    }
    r
}

} // verus!
