//! Regular expressions written as `/pattern/flags`.

use vstd::prelude::*;
use crate::error::Error;
use crate::flags::{parse_flags, FlagError, Flags};
use crate::program::ProgramView;
use crate::regex::{built_view, regex_spec, Regex};
use crate::text::chars_of;

verus! {

/// The index of the `/` that ends the pattern of the literal `s`, looked
/// for from `i` on; `in_class` says whether `i` lies in a character class
/// and `escaped` whether a `\` stands directly before it.
///
/// The pattern ends at the first `/` that stands neither behind a `\` nor
/// between `[` and `]`.
pub open spec fn closing_slash(s: Seq<char>, i: int, in_class: bool, escaped: bool) -> Option<int>
    decreases s.len() - i,
{
    if !(0 <= i < s.len()) {
        None
    } else if escaped {
        closing_slash(s, i + 1, in_class, false)
    } else if s[i] == '\\' {
        closing_slash(s, i + 1, in_class, true)
    } else if in_class {
        closing_slash(s, i + 1, s[i] != ']', false)
    } else if s[i] == '[' {
        closing_slash(s, i + 1, true, false)
    } else if s[i] == '/' {
        Some(i)
    } else {
        closing_slash(s, i + 1, false, false)
    }
}

/// What is found as the end of the pattern is a `/` of the literal, at
/// the index from which it was looked for or behind it.
pub proof fn lemma_closing_slash(s: Seq<char>, i: int, in_class: bool, escaped: bool)
    requires
        0 <= i,
    ensures
        closing_slash(s, i, in_class, escaped) matches Some(end) ==> i <= end < s.len() && s[end]
            == '/',
    decreases s.len() - i,
{
    if i < s.len() {
        if escaped {
            lemma_closing_slash(s, i + 1, in_class, false);
        } else if s[i] == '\\' {
            lemma_closing_slash(s, i + 1, in_class, true);
        } else if in_class {
            lemma_closing_slash(s, i + 1, s[i] != ']', false);
        } else if s[i] == '[' {
            lemma_closing_slash(s, i + 1, true, false);
        } else if s[i] != '/' {
            lemma_closing_slash(s, i + 1, false, false);
        }
    }
}

/// The pattern and the flags that the literal `s` is made of.
pub open spec fn literal_parts(s: Seq<char>) -> Result<(Seq<char>, Flags), Error> {
    if s.len() == 0 || s[0] != '/' {
        Err(Error::MissingLeadingSlash)
    } else {
        match closing_slash(s, 1, false, false) {
            None => Err(Error::MissingTrailingSlash),
            Some(end) => match parse_flags(s.subrange(end + 1, s.len() as int)) {
                Err(FlagError::InvalidFlag(c)) => Err(Error::InvalidFlag(c)),
                Ok(flags) => Ok((s.subrange(1, end), flags)),
            },
        }
    }
}

/// What building a regular expression from the literal `s` gives, as the
/// program it holds: what compiling its pattern with its flags gives.
pub open spec fn literal_spec(s: Seq<char>) -> Result<ProgramView, Error> {
    match literal_parts(s) {
        Err(e) => Err(e),
        Ok((pattern, flags)) => regex_spec(pattern, flags),
    }
}

/// Looks for the `/` that ends the pattern of the literal `s`.
pub fn find_closing_slash(s: &Vec<char>) -> (r: Option<usize>)
    ensures
        match r {
            Some(end) => closing_slash(s@, 1, false, false) == Some(end as int) && 1 <= end
                < s.len(),
            None => closing_slash(s@, 1, false, false) is None,
        },
{
    let mut i: usize = 1;
    let mut in_class = false;
    let mut escaped = false;
    while i < s.len()
        invariant
            1 <= i,
            closing_slash(s@, 1, false, false) == closing_slash(s@, i as int, in_class, escaped),
        decreases s.len() - i,
    {
        let c = s[i];
        if escaped {
            escaped = false;
        } else if c == '\\' {
            escaped = true;
        } else if in_class {
            in_class = c != ']';
        } else if c == '[' {
            in_class = true;
        } else if c == '/' {
            return Some(i);
        }
        i = i + 1;
    }
    None
}

impl Regex {
    /// Builds a regular expression from a literal of the form
    /// `/pattern/flags`.
    ///
    /// The literal must begin with `/`.  Its pattern runs up to the first
    /// `/` that stands neither behind a `\` nor in a character class, and
    /// what follows that `/` are the flags.
    pub fn unstable_from_ecma_literal(literal: &str) -> (r: Result<Regex, Error>)
        ensures
            built_view(r) == literal_spec(literal@),
    {
        let chars = chars_of(literal);
        if chars.len() == 0 || chars[0] != '/' {
            return Err(Error::ecma_literal_must_start_with_slash(literal));
        }
        let end = match find_closing_slash(&chars) {
            Some(end) => end,
            None => {
                return Err(Error::ecma_literal_must_have_end_slash());
            },
        };
        let flags = match Flags::from_str(literal.substring_char(end + 1, chars.len())) {
            Ok(flags) => flags,
            Err(FlagError::InvalidFlag(c)) => {
                return Err(Error::invalid_flag(c));
            },
        };
        Regex::with_flags(literal.substring_char(1, end), flags)
    }
}

} // verus!
