//! Mode flags of a regular expression.

use vstd::prelude::*;

verus! {

/// The set of mode flags a pattern is compiled with.
///
/// Each field is one independent capability; any combination is valid.
#[derive(Clone, Copy, Debug, PartialEq, Eq, Hash, Structural)]
pub struct Flags {
    /// `g`: the caller wants every match, not only the first.
    pub global: bool,
    /// `i`: letters match regardless of case.
    pub ignore_case: bool,
    /// `m`: `^` and `$` also match at line boundaries.
    pub multi_line: bool,
    /// `s`: `.` also matches line terminators.
    pub dot_all: bool,
    /// `u`: the pattern is read as a sequence of code points.
    pub unicode: bool,
    /// `y`: a match must begin exactly at the start offset.
    pub sticky: bool,
}

/// Why a flag string was rejected.
#[derive(Clone, Copy, Debug, PartialEq, Eq, Hash, Structural)]
pub enum FlagError {
    /// The character is not one of `g i m s u y`.
    InvalidFlag(char),
}

/// Whether `c` is one of the six flag letters.
pub open spec fn is_flag_char(c: char) -> bool {
    c == 'g' || c == 'i' || c == 'm' || c == 's' || c == 'u' || c == 'y'
}

/// The index of the first character of `s` at or after `i` that is no flag
/// letter, or the length of `s` if there is none.
pub open spec fn first_invalid_flag(s: Seq<char>, i: int) -> int
    decreases s.len() - i,
{
    if i < 0 || i >= s.len() {
        s.len() as int
    } else if !is_flag_char(s[i]) {
        i
    } else {
        first_invalid_flag(s, i + 1)
    }
}

/// The flags named by the letters of `s`: a flag is set exactly when its
/// letter occurs.
pub open spec fn flags_of(s: Seq<char>) -> Flags {
    Flags {
        global: s.contains('g'),
        ignore_case: s.contains('i'),
        multi_line: s.contains('m'),
        dot_all: s.contains('s'),
        unicode: s.contains('u'),
        sticky: s.contains('y'),
    }
}

/// What parsing the flag string `s` yields.
pub open spec fn parse_flags(s: Seq<char>) -> Result<Flags, FlagError> {
    let i = first_invalid_flag(s, 0);
    if i < s.len() {
        Err(FlagError::InvalidFlag(s[i]))
    } else {
        Ok(flags_of(s))
    }
}

impl Flags {
    /// The flag set with nothing set.
    pub open spec fn spec_empty() -> Flags {
        Flags {
            global: false,
            ignore_case: false,
            multi_line: false,
            dot_all: false,
            unicode: false,
            sticky: false,
        }
    }

    /// The flag set with nothing set.
    #[verifier::when_used_as_spec(spec_empty)]
    pub fn empty() -> (r: Flags)
        ensures
            r == Flags::spec_empty(),
    {
        Flags {
            global: false,
            ignore_case: false,
            multi_line: false,
            dot_all: false,
            unicode: false,
            sticky: false,
        }
    }
}

impl Flags {
    /// The flag set with every flag set.
    pub fn all() -> (r: Flags)
        ensures
            r == (Flags {
                global: true,
                ignore_case: true,
                multi_line: true,
                dot_all: true,
                unicode: true,
                sticky: true,
            }),
    {
        Flags {
            global: true,
            ignore_case: true,
            multi_line: true,
            dot_all: true,
            unicode: true,
            sticky: true,
        }
    }

    /// The flags that are set in `self` or in `other`.
    pub open spec fn spec_union(self, other: Flags) -> Flags {
        Flags {
            global: self.global || other.global,
            ignore_case: self.ignore_case || other.ignore_case,
            multi_line: self.multi_line || other.multi_line,
            dot_all: self.dot_all || other.dot_all,
            unicode: self.unicode || other.unicode,
            sticky: self.sticky || other.sticky,
        }
    }

    /// The flags that are set in `self` or in `other`.
    #[verifier::when_used_as_spec(spec_union)]
    pub fn union(self, other: Flags) -> (r: Flags)
        ensures
            r == self.spec_union(other),
    {
        Flags {
            global: self.global || other.global,
            ignore_case: self.ignore_case || other.ignore_case,
            multi_line: self.multi_line || other.multi_line,
            dot_all: self.dot_all || other.dot_all,
            unicode: self.unicode || other.unicode,
            sticky: self.sticky || other.sticky,
        }
    }

    /// Whether every flag that is set in `other` is set in `self`.
    pub open spec fn spec_contains(self, other: Flags) -> bool {
        &&& other.global ==> self.global
        &&& other.ignore_case ==> self.ignore_case
        &&& other.multi_line ==> self.multi_line
        &&& other.dot_all ==> self.dot_all
        &&& other.unicode ==> self.unicode
        &&& other.sticky ==> self.sticky
    }

    /// Whether every flag that is set in `other` is set in `self`.
    #[verifier::when_used_as_spec(spec_contains)]
    pub fn contains(self, other: Flags) -> (r: bool)
        ensures
            r == self.spec_contains(other),
    {
        (!other.global || self.global) && (!other.ignore_case || self.ignore_case) && (
        !other.multi_line || self.multi_line) && (!other.dot_all || self.dot_all) && (
        !other.unicode || self.unicode) && (!other.sticky || self.sticky)
    }

    /// The flags as an integer with one bit per flag: 1 for `g`, 2 for `i`,
    /// 4 for `m`, 8 for `s`, 16 for `u` and 32 for `y`.
    pub open spec fn spec_bits(self) -> int {
        (if self.global { 1int } else { 0 })
        + (if self.ignore_case { 2int } else { 0 })
        + (if self.multi_line { 4int } else { 0 })
        + (if self.dot_all { 8int } else { 0 })
        + (if self.unicode { 16int } else { 0 })
        + (if self.sticky { 32int } else { 0 })
    }

    /// The flags as an integer with one bit per flag.
    pub fn bits(&self) -> (r: u32)
        ensures
            r == self.spec_bits(),
    {
        let mut r: u32 = 0;
        if self.global {
            r = r + 1;
        }
        if self.ignore_case {
            r = r + 2;
        }
        if self.multi_line {
            r = r + 4;
        }
        if self.dot_all {
            r = r + 8;
        }
        if self.unicode {
            r = r + 16;
        }
        if self.sticky {
            r = r + 32;
        }
        r
    }

    /// Parses a string of flag letters.
    ///
    /// Every letter sets its flag; order does not matter and a repeated
    /// letter changes nothing.  The first character that is no flag letter
    /// is reported.
    pub fn from_str(s: &str) -> (r: Result<Flags, FlagError>)
        ensures
            r == parse_flags(s@),
    {
        let mut flags = Flags::empty();
        let ghost text = s@;
        for c in it: s.chars()
            invariant
                text == s@,
                it.seq() == text,
                first_invalid_flag(text, 0) == first_invalid_flag(text, it.index()),
                flags == flags_of(text.take(it.index())),
        {
            let ghost i = it.index();
            let ghost before = text.take(i);
            let ghost after = text.take(i + 1);
            assert(0 <= i < text.len() && c == text[i]);
            proof {
                assert(first_invalid_flag(text, i) == if is_flag_char(c) {
                    first_invalid_flag(text, i + 1)
                } else {
                    i
                });
                assert(after =~= before.push(c));
                assert(after[i] == c);
                assert forall|x: char| after.contains(x) <==> (before.contains(x) || x == c) by {
                    if before.contains(x) {
                        let j = choose|j: int| 0 <= j < before.len() && before[j] == x;
                        assert(after[j] == x);
                    }
                }
            }
            if c == 'g' {
                flags.global = true;
            } else if c == 'i' {
                flags.ignore_case = true;
            } else if c == 'm' {
                flags.multi_line = true;
            } else if c == 's' {
                flags.dot_all = true;
            } else if c == 'u' {
                flags.unicode = true;
            } else if c == 'y' {
                flags.sticky = true;
            } else {
                return Err(FlagError::InvalidFlag(c));
            }
        }
        assert(text.take(text.len() as int) =~= text);
        Ok(flags)
    }
}

/// Up to the first invalid letter from `i` on, every letter is a flag
/// letter, and that first invalid letter, if there is one, is none.
pub proof fn lemma_first_invalid_flag(s: Seq<char>, i: int)
    requires
        0 <= i <= s.len(),
    ensures
        i <= first_invalid_flag(s, i) <= s.len(),
        forall|j: int| i <= j < first_invalid_flag(s, i) ==> is_flag_char(#[trigger] s[j]),
        first_invalid_flag(s, i) < s.len() ==> !is_flag_char(s[first_invalid_flag(s, i)]),
    decreases s.len() - i,
{
    if i < s.len() && is_flag_char(s[i]) {
        lemma_first_invalid_flag(s, i + 1);
    }
}

/// A flag string is accepted exactly when each of its letters is a flag
/// letter; otherwise the error names the first letter that is none.
pub proof fn lemma_parse_flags_accepts(s: Seq<char>)
    ensures
        parse_flags(s) is Ok <==> forall|j: int| 0 <= j < s.len() ==> is_flag_char(#[trigger] s[j]),
        parse_flags(s) matches Err(FlagError::InvalidFlag(c)) ==> !is_flag_char(c) && s.contains(
            c,
        ),
{
    lemma_first_invalid_flag(s, 0);
}

/// Reading one flag string after another gives the union of what each
/// gives.
pub proof fn lemma_flags_of_concat(a: Seq<char>, b: Seq<char>)
    ensures
        flags_of(a + b) == flags_of(a).union(flags_of(b)),
{
    assert forall|c: char| (a + b).contains(c) <==> (a.contains(c) || b.contains(c)) by {
        if a.contains(c) {
            let j = choose|j: int| 0 <= j < a.len() && a[j] == c;
            assert((a + b)[j] == c);
        }
        if b.contains(c) {
            let j = choose|j: int| 0 <= j < b.len() && b[j] == c;
            assert((a + b)[a.len() + j] == c);
        }
        if (a + b).contains(c) {
            let j = choose|j: int| 0 <= j < (a + b).len() && (a + b)[j] == c;
            if j < a.len() {
                assert(a[j] == c);
            } else {
                assert(b[j - a.len()] == c);
            }
        }
    }
}

/// Neither the order of the letters nor their repetition matters: two flag
/// strings in which the same letters occur give the same flags.
pub proof fn lemma_flags_depend_on_letters_only(a: Seq<char>, b: Seq<char>)
    requires
        forall|c: char| a.contains(c) <==> b.contains(c),
    ensures
        parse_flags(a) is Ok <==> parse_flags(b) is Ok,
        parse_flags(a) is Ok ==> parse_flags(a) == parse_flags(b),
{
    lemma_parse_flags_accepts(a);
    lemma_parse_flags_accepts(b);
    assert forall|j: int| 0 <= j < a.len() implies b.contains(#[trigger] a[j]) by {
        assert(a.contains(a[j]));
    }
    assert forall|j: int| 0 <= j < b.len() implies a.contains(#[trigger] b[j]) by {
        assert(b.contains(b[j]));
    }
    if forall|j: int| 0 <= j < a.len() ==> is_flag_char(#[trigger] a[j]) {
        assert forall|j: int| 0 <= j < b.len() implies is_flag_char(#[trigger] b[j]) by {
            let k = choose|k: int| 0 <= k < a.len() && a[k] == b[j];
            assert(is_flag_char(a[k]));
        }
    }
    if forall|j: int| 0 <= j < b.len() ==> is_flag_char(#[trigger] b[j]) {
        assert forall|j: int| 0 <= j < a.len() implies is_flag_char(#[trigger] a[j]) by {
            let k = choose|k: int| 0 <= k < b.len() && b[k] == a[j];
            assert(is_flag_char(b[k]));
        }
    }
}

} // verus!
