//! Subject and pattern text as sequences of characters.

use vstd::prelude::*;

verus! {

/// The characters of `s`, in order, ready for random access.
pub fn chars_of(s: &str) -> (v: Vec<char>)
    ensures
        v@ == s@,
{
    let mut v: Vec<char> = Vec::new();
    for c in it: s.chars()
        invariant
            v@ == it.history(),
            it.seq() == s@,
    {
        v.push(c);
    }
    assert(v@ =~= s@);
    v
}

/// Whether `c` ends a line: line feed, carriage return, line separator or
/// paragraph separator.
pub open spec fn spec_is_line_terminator(c: char) -> bool {
    c == '\n' || c == '\r' || c == '\u{2028}' || c == '\u{2029}'
}

/// Whether `c` ends a line.
#[verifier::when_used_as_spec(spec_is_line_terminator)]
pub fn is_line_terminator(c: char) -> (r: bool)
    ensures
        r == spec_is_line_terminator(c),
{
    c == '\n' || c == '\r' || c == '\u{2028}' || c == '\u{2029}'
}

} // verus!
