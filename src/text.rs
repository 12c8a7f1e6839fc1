//! Character-level string operations that come from outside the crate.

use vstd::prelude::*;
use substring::Substring;

verus! {

/// Relies on std's `String::push`: appends the character at the end.
#[verifier::external_body]
pub(crate) fn push_char(s: &mut String, c: char)
    ensures
        final(s)@ == old(s)@.push(c),
{
    s.push(c)
}

/// Relies on substring's `Substring::substring`: the characters from index
/// `start` up to, not including, `end`, counted in characters and capped at
/// the length; nothing when `end <= start`.
#[verifier::external_body]
pub(crate) fn char_substring(s: &str, start: usize, end: usize) -> (r: String)
    ensures
        r@ == if end <= start {
            Seq::<char>::empty()
        } else {
            s@.subrange(
                if start < s@.len() { start as int } else { s@.len() as int },
                if end < s@.len() { end as int } else { s@.len() as int },
            )
        },
{
    s.substring(start, end).to_string()
}

} // verus!
