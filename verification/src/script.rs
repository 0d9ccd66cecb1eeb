use vstd::prelude::*;

verus! {

use vstd::string::StrSliceExecFns;

/// One scalar value of the target script family: CJK punctuation, hiragana,
/// katakana, fullwidth and halfwidth forms, common or rare ideographs.
pub open spec fn is_target_char(c: char) -> bool {
    ||| 0x3000 <= c as u32 <= 0x303F
    ||| 0x3040 <= c as u32 <= 0x309F
    ||| 0x30A0 <= c as u32 <= 0x30FF
    ||| 0xFF00 <= c as u32 <= 0xFFEF
    ||| 0x4E00 <= c as u32 <= 0x9FAF
    ||| 0x3400 <= c as u32 <= 0x4DBF
}

/// Some scalar value of `s` lies in the target ranges.
pub open spec fn has_target(s: Seq<char>) -> bool {
    exists|i: int| 0 <= i < s.len() && is_target_char(s[i])
}

/// Whether one scalar value lies in one of the target ranges.
pub fn char_is_target(c: char) -> (r: bool)
    ensures
        r == is_target_char(c),
{
    let u = c as u32;
    (0x3000 <= u && u <= 0x303F) || (0x3040 <= u && u <= 0x309F) || (0x30A0 <= u && u
        <= 0x30FF) || (0xFF00 <= u && u <= 0xFFEF) || (0x4E00 <= u && u <= 0x9FAF) || (0x3400 <= u
        && u <= 0x4DBF)
}

/// Returns true iff at least one scalar value of `text` lies in the target
/// script ranges; in particular the empty string yields false.
pub fn is_jp(text: &str) -> (r: bool)
    ensures
        r == has_target(text@),
{
    let n = text.unicode_len();
    let mut i: usize = 0;
    while i < n
        invariant
            i <= n,
            n == text@.len(),
            forall|j: int| 0 <= j < i ==> !is_target_char(text@[j]),
        decreases n - i,
    {
        if char_is_target(text.get_char(i)) {
            proof {
                assert(is_target_char(text@[i as int]));
            }
            return true;
        }
        i = i + 1;
    }
    false
}

} // verus!
