//! Numbers and character escapes in pattern text.

use vstd::prelude::*;
use crate::error::{CompileError, SyntaxKind};

verus! {

/// The greatest number of characters a pattern may have.
pub const MAX_PATTERN_LEN: usize = 0x7fff_ffff;

/// The value at which a decimal number in a pattern stops growing.
pub const MAX_NUMBER: usize = 0x1_0001;

/// Whether `c` is a decimal digit.
pub open spec fn spec_is_digit(c: char) -> bool {
    '0' <= c && c <= '9'
}

/// Whether `c` is a decimal digit.
#[verifier::when_used_as_spec(spec_is_digit)]
pub fn is_digit(c: char) -> (r: bool)
    ensures
        r == spec_is_digit(c),
{
    '0' <= c && c <= '9'
}

/// Whether `c` is an ASCII letter.
pub open spec fn spec_is_letter(c: char) -> bool {
    ('a' <= c && c <= 'z') || ('A' <= c && c <= 'Z')
}

/// Whether `c` is an ASCII letter.
#[verifier::when_used_as_spec(spec_is_letter)]
pub fn is_letter(c: char) -> (r: bool)
    ensures
        r == spec_is_letter(c),
{
    ('a' <= c && c <= 'z') || ('A' <= c && c <= 'Z')
}

/// Whether `c` is one of the characters that the grammar gives a meaning:
/// `^ $ \ . * + ? ( ) [ ] { } |`.
pub open spec fn spec_is_syntax_char(c: char) -> bool {
    c == '^' || c == '$' || c == '\\' || c == '.' || c == '*' || c == '+' || c == '?' || c == '('
        || c == ')' || c == '[' || c == ']' || c == '{' || c == '}' || c == '|'
}

/// Whether `c` is one of the characters that the grammar gives a meaning.
#[verifier::when_used_as_spec(spec_is_syntax_char)]
pub fn is_syntax_char(c: char) -> (r: bool)
    ensures
        r == spec_is_syntax_char(c),
{
    c == '^' || c == '$' || c == '\\' || c == '.' || c == '*' || c == '+' || c == '?' || c == '('
        || c == ')' || c == '[' || c == ']' || c == '{' || c == '}' || c == '|'
}

/// The value of `c` as a hexadecimal digit.
pub open spec fn spec_hex_value(c: char) -> Option<u32> {
    if '0' <= c && c <= '9' {
        Some((c as u32 - 0x30) as u32)
    } else if 'a' <= c && c <= 'f' {
        Some((c as u32 - 0x61 + 10) as u32)
    } else if 'A' <= c && c <= 'F' {
        Some((c as u32 - 0x41 + 10) as u32)
    } else {
        None
    }
}

/// The value of `c` as a hexadecimal digit.
#[verifier::when_used_as_spec(spec_hex_value)]
pub fn hex_value(c: char) -> (r: Option<u32>)
    ensures
        r == spec_hex_value(c),
        r matches Some(d) ==> d < 16,
{
    if '0' <= c && c <= '9' {
        Some(c as u32 - 0x30)
    } else if 'a' <= c && c <= 'f' {
        Some(c as u32 - 0x61 + 10)
    } else if 'A' <= c && c <= 'F' {
        Some(c as u32 - 0x41 + 10)
    } else {
        None
    }
}

/// The number written by the `n` hexadecimal digits of `s` from `i` on,
/// read after digits that gave `acc`; `None` if one of them is no digit.
pub open spec fn hex_run(s: Seq<char>, i: int, n: nat, acc: int) -> Option<int>
    decreases n,
{
    if n == 0 {
        Some(acc)
    } else if 0 <= i < s.len() && hex_value(s[i]) is Some {
        hex_run(s, i + 1, (n - 1) as nat, acc * 16 + hex_value(s[i]).unwrap())
    } else {
        None
    }
}

/// Reads `n` hexadecimal digits, at most four, from `i` on.
pub(crate) fn read_hex(s: &Vec<char>, i: usize, n: usize) -> (r: Option<u32>)
    requires
        i <= s.len() <= MAX_PATTERN_LEN,
        n <= 4,
    ensures
        r matches Some(v) ==> hex_run(s@, i as int, n as nat, 0) == Some(v as int) && v < 0x1_0000
            && i + n <= s.len(),
        r is None ==> hex_run(s@, i as int, n as nat, 0) is None,
{
    let mut acc: u32 = 0;
    let mut k: usize = 0;
    while k < n
        invariant
            i <= s.len() <= MAX_PATTERN_LEN,
            k <= n <= 4,
            i + k <= s.len(),
            acc < 0x1_0000,
            k == 0 ==> acc < 1,
            k == 1 ==> acc < 0x10,
            k == 2 ==> acc < 0x100,
            k == 3 ==> acc < 0x1000,
            hex_run(s@, i as int, n as nat, 0) == hex_run(
                s@,
                i + k,
                (n - k) as nat,
                acc as int,
            ),
        decreases n - k,
    {
        if i + k >= s.len() {
            return None;
        }
        match hex_value(s[i + k]) {
            Some(d) => {
                acc = acc * 16 + d;
            },
            None => {
                return None;
            },
        }
        k = k + 1;
    }
    Some(acc)
}

/// The code point written in hexadecimal digits from `i` up to a `}`, read
/// after digits that gave `acc`, and the index behind the `}`.  `None` if
/// there is no digit (`seen` says whether one was read), something else
/// than a digit, no `}`, or a value above the last code point.
pub open spec fn braced_hex(s: Seq<char>, i: int, acc: int, seen: bool) -> Option<(int, int)>
    decreases s.len() - i,
{
    if !(0 <= i < s.len()) {
        None
    } else if s[i] == '}' {
        if seen {
            Some((acc, i + 1))
        } else {
            None
        }
    } else if hex_value(s[i]) is Some {
        let v = acc * 16 + hex_value(s[i]).unwrap();
        if v > 0x10_ffff {
            None
        } else {
            braced_hex(s, i + 1, v, true)
        }
    } else {
        None
    }
}

/// Reads hexadecimal digits from `i` up to a `}`.
pub(crate) fn read_braced_hex(s: &Vec<char>, i: usize) -> (r: Option<(u32, usize)>)
    requires
        i <= s.len() <= MAX_PATTERN_LEN,
    ensures
        r matches Some((v, next)) ==> braced_hex(s@, i as int, 0, false) == Some(
            (v as int, next as int),
        ) && v <= 0x10_ffff && i < next <= s.len(),
        r is None ==> braced_hex(s@, i as int, 0, false) is None,
{
    let mut acc: u32 = 0;
    let mut j: usize = i;
    let mut seen = false;
    loop
        invariant
            i <= j <= s.len() <= MAX_PATTERN_LEN,
            acc <= 0x10_ffff,
            seen <==> j > i,
            braced_hex(s@, i as int, 0, false) == braced_hex(s@, j as int, acc as int, seen),
        decreases s.len() - j,
    {
        if j >= s.len() {
            return None;
        }
        let c = s[j];
        if c == '}' {
            if seen {
                return Some((acc, j + 1));
            } else {
                return None;
            }
        }
        match hex_value(c) {
            Some(d) => {
                let v = acc * 16 + d;
                if v > 0x10_ffff {
                    return None;
                }
                acc = v;
                seen = true;
                j = j + 1;
            },
            None => {
                return None;
            },
        }
    }
}

/// `v`, or `MAX_NUMBER` if `v` is greater.
pub open spec fn capped(v: int) -> int {
    if v > MAX_NUMBER {
        MAX_NUMBER as int
    } else {
        v
    }
}

/// The decimal number written from `i` on, read after digits that gave
/// `acc`, and the index of the first character that is no digit.  The
/// number stops growing at `MAX_NUMBER`.
pub open spec fn number(s: Seq<char>, i: int, acc: int) -> (int, int)
    decreases s.len() - i,
{
    if 0 <= i < s.len() && is_digit(s[i]) {
        number(s, i + 1, capped(acc * 10 + (s[i] as u32 - 0x30)))
    } else {
        (acc, i)
    }
}

/// Reads the decimal number written from `i` on.
pub(crate) fn read_number(s: &Vec<char>, i: usize) -> (r: (usize, usize))
    requires
        i <= s.len() <= MAX_PATTERN_LEN,
    ensures
        number(s@, i as int, 0) == (r.0 as int, r.1 as int),
        r.0 <= MAX_NUMBER,
        i <= r.1 <= s.len(),
        r.1 < s.len() ==> !is_digit(s[r.1 as int]),
        r.1 > i <==> (i < s.len() && is_digit(s[i as int])),
{
    let mut acc: usize = 0;
    let mut j: usize = i;
    while j < s.len() && is_digit(s[j])
        invariant
            i <= j <= s.len() <= MAX_PATTERN_LEN,
            acc <= MAX_NUMBER,
            number(s@, i as int, 0) == number(s@, j as int, acc as int),
            j > i ==> (i < s.len() && is_digit(s[i as int])),
        decreases s.len() - j,
    {
        let d = (s[j] as u32 - 0x30) as usize;
        let v = acc * 10 + d;
        acc = if v > MAX_NUMBER {
            MAX_NUMBER
        } else {
            v
        };
        j = j + 1;
    }
    (acc, j)
}

/// Whether `c` is an octal digit.
pub open spec fn spec_is_octal(c: char) -> bool {
    '0' <= c && c <= '7'
}

/// Whether `c` is an octal digit.
#[verifier::when_used_as_spec(spec_is_octal)]
pub fn is_octal(c: char) -> (r: bool)
    ensures
        r == spec_is_octal(c),
{
    '0' <= c && c <= '7'
}

/// The code point that the octal digits from `i` on name, and the index
/// behind them: as many digits as there are, three at most, and two at
/// most where three would name more than 255.
pub open spec fn octal_escape(s: Seq<char>, i: int) -> (u32, int)
    recommends
        0 <= i < s.len(),
        is_octal(s[i]),
{
    let first = (s[i] as u32 - 0x30) as u32;
    if i + 1 < s.len() && is_octal(s[i + 1]) {
        let second = (s[i + 1] as u32 - 0x30) as u32;
        if first <= 3 && i + 2 < s.len() && is_octal(s[i + 2]) {
            ((first * 64 + second * 8 + (s[i + 2] as u32 - 0x30)) as u32, i + 3)
        } else {
            ((first * 8 + second) as u32, i + 2)
        }
    } else {
        (first, i + 1)
    }
}

/// Reads the octal digits from `i` on.
pub(crate) fn read_octal_escape(s: &Vec<char>, i: usize) -> (r: (u32, usize))
    requires
        i < s.len() <= MAX_PATTERN_LEN,
        is_octal(s[i as int]),
    ensures
        octal_escape(s@, i as int) == (r.0, r.1 as int),
        i < r.1 <= s.len(),
        r.0 <= 0xff,
{
    let first = s[i] as u32 - 0x30;
    if i + 1 < s.len() && is_octal(s[i + 1]) {
        let second = s[i + 1] as u32 - 0x30;
        if first <= 3 && i + 2 < s.len() && is_octal(s[i + 2]) {
            (first * 64 + second * 8 + (s[i + 2] as u32 - 0x30), i + 3)
        } else {
            (first * 8 + second, i + 2)
        }
    } else {
        (first, i + 1)
    }
}

/// The error for an escape whose backslash stands at `at`.
pub open spec fn bad_escape(at: int) -> CompileError {
    CompileError::Syntax(at as usize, SyntaxKind::InvalidEscape)
}

/// The code point that the `\u` escape whose `u` stands at `i` names, and
/// the index behind the escape.
///
/// `\uHHHH` names the code point with that number.  With the unicode flag,
/// `\u{H..}` does so too, and a `\uHHHH` in the range of the leading
/// surrogates directly followed by one in the range of the trailing
/// surrogates names the code point that the pair encodes.  A `\u` that is
/// followed by neither is an error with the unicode flag, and the letter
/// `u` without it.
pub open spec fn unicode_escape(s: Seq<char>, unicode: bool, i: int) -> Result<
    (u32, int),
    CompileError,
> {
    if unicode && i + 1 < s.len() && s[i + 1] == '{' {
        match braced_hex(s, i + 2, 0, false) {
            Some((v, next)) => Ok((v as u32, next)),
            None => Err(bad_escape(i - 1)),
        }
    } else {
        match hex_run(s, i + 1, 4, 0) {
            Some(v) => {
                if unicode && 0xd800 <= v <= 0xdbff && i + 6 < s.len() && s[i + 5] == '\\' && s[i
                    + 6] == 'u' && (hex_run(s, i + 7, 4, 0) matches Some(w) && 0xdc00 <= w
                    <= 0xdfff) {
                    Ok(
                        (
                            (0x1_0000 + (v - 0xd800) * 0x400 + (hex_run(s, i + 7, 4, 0).unwrap()
                                - 0xdc00)) as u32,
                            i + 11,
                        ),
                    )
                } else {
                    Ok((v as u32, i + 5))
                }
            },
            None => if unicode {
                Err(bad_escape(i - 1))
            } else {
                Ok(('u' as u32, i + 1))
            },
        }
    }
}

/// Reads the `\u` escape whose `u` stands at `i`.
pub(crate) fn read_unicode_escape(s: &Vec<char>, unicode: bool, i: usize) -> (r: Result<
    (u32, usize),
    CompileError,
>)
    requires
        0 < i < s.len() <= MAX_PATTERN_LEN,
    ensures
        escape_view(r) == unicode_escape(s@, unicode, i as int),
        r matches Ok((_, next)) ==> i < next <= s.len(),
{
    if unicode && i + 1 < s.len() && s[i + 1] == '{' {
        match read_braced_hex(s, i + 2) {
            Some((v, next)) => Ok((v, next)),
            None => Err(CompileError::Syntax(i - 1, SyntaxKind::InvalidEscape)),
        }
    } else {
        match read_hex(s, i + 1, 4) {
            Some(v) => {
                if unicode && 0xd800 <= v && v <= 0xdbff && i + 6 < s.len() && s[i + 5] == '\\'
                    && s[i + 6] == 'u' {
                    match read_hex(s, i + 7, 4) {
                        Some(w) => {
                            if 0xdc00 <= w && w <= 0xdfff {
                                return Ok((0x1_0000 + (v - 0xd800) * 0x400 + (w - 0xdc00), i + 11));
                            }
                        },
                        None => {},
                    }
                }
                Ok((v, i + 5))
            },
            None => if unicode {
                Err(CompileError::Syntax(i - 1, SyntaxKind::InvalidEscape))
            } else {
                Ok(('u' as u32, i + 1))
            },
        }
    }
}

/// The mathematical value of what reading an escape gave.
pub open spec fn escape_view(r: Result<(u32, usize), CompileError>) -> Result<
    (u32, int),
    CompileError,
> {
    match r {
        Ok((v, next)) => Ok((v, next as int)),
        Err(e) => Err(e),
    }
}

/// Whether `c` may follow `\c` to name a control character: a letter, and
/// in a class without the unicode flag also a digit or `_`.
pub open spec fn spec_control_letter(c: char, unicode: bool, in_class: bool) -> bool {
    is_letter(c) || (in_class && !unicode && (is_digit(c) || c == '_'))
}

/// Whether `c` may follow `\c` to name a control character.
#[verifier::when_used_as_spec(spec_control_letter)]
pub fn control_letter(c: char, unicode: bool, in_class: bool) -> (r: bool)
    ensures
        r == spec_control_letter(c, unicode, in_class),
{
    is_letter(c) || (in_class && !unicode && (is_digit(c) || c == '_'))
}

/// The code point that the escape whose backslash stands at `i - 1` names,
/// and the index behind the escape.  `in_class` says whether the escape
/// stands in a character class.
///
/// `\t \n \v \f \r` name the control characters, `\cX` the control
/// character of the letter `X`, `\xHH` and `\u` the code point with that
/// number.  Digits name the code point with that octal number, `8` and `9`
/// themselves; with the unicode flag only a lone `0` is accepted.  Any
/// other character stands for itself; with the unicode flag only a
/// character the grammar gives a meaning, `/`, and in a class `-`, may be
/// written so.
pub open spec fn char_escape(s: Seq<char>, unicode: bool, in_class: bool, i: int) -> Result<
    (u32, int),
    CompileError,
>
    recommends
        0 < i < s.len(),
{
    let c = s[i];
    if c == 't' {
        Ok((9u32, i + 1))
    } else if c == 'n' {
        Ok((10u32, i + 1))
    } else if c == 'v' {
        Ok((11u32, i + 1))
    } else if c == 'f' {
        Ok((12u32, i + 1))
    } else if c == 'r' {
        Ok((13u32, i + 1))
    } else if is_digit(c) {
        if unicode {
            if c == '0' && !(i + 1 < s.len() && is_digit(s[i + 1])) {
                Ok((0u32, i + 1))
            } else {
                Err(bad_escape(i - 1))
            }
        } else if is_octal(c) {
            Ok(octal_escape(s, i))
        } else {
            Ok((c as u32, i + 1))
        }
    } else if c == 'c' {
        if i + 1 < s.len() && control_letter(s[i + 1], unicode, in_class) {
            Ok(((s[i + 1] as u32 % 32) as u32, i + 2))
        } else if unicode {
            Err(bad_escape(i - 1))
        } else {
            Ok(('\\' as u32, i))
        }
    } else if c == 'x' {
        match hex_run(s, i + 1, 2, 0) {
            Some(v) => Ok((v as u32, i + 3)),
            None => if unicode {
                Err(bad_escape(i - 1))
            } else {
                Ok(('x' as u32, i + 1))
            },
        }
    } else if c == 'u' {
        unicode_escape(s, unicode, i)
    } else if unicode && !(is_syntax_char(c) || c == '/' || (in_class && c == '-')) {
        Err(bad_escape(i - 1))
    } else {
        Ok((c as u32, i + 1))
    }
}

/// Reads the escape whose backslash stands at `i - 1`.
pub(crate) fn read_char_escape(
    s: &Vec<char>,
    unicode: bool,
    in_class: bool,
    i: usize,
) -> (r: Result<(u32, usize), CompileError>)
    requires
        0 < i < s.len() <= MAX_PATTERN_LEN,
    ensures
        escape_view(r) == char_escape(s@, unicode, in_class, i as int),
        r matches Ok((_, next)) ==> i <= next <= s.len(),
{
    let c = s[i];
    let bad = Err(CompileError::Syntax(i - 1, SyntaxKind::InvalidEscape));
    if c == 't' {
        Ok((9, i + 1))
    } else if c == 'n' {
        Ok((10, i + 1))
    } else if c == 'v' {
        Ok((11, i + 1))
    } else if c == 'f' {
        Ok((12, i + 1))
    } else if c == 'r' {
        Ok((13, i + 1))
    } else if is_digit(c) {
        if unicode {
            if c == '0' && !(i + 1 < s.len() && is_digit(s[i + 1])) {
                Ok((0, i + 1))
            } else {
                bad
            }
        } else if is_octal(c) {
            Ok(read_octal_escape(s, i))
        } else {
            Ok((c as u32, i + 1))
        }
    } else if c == 'c' {
        if i + 1 < s.len() && control_letter(s[i + 1], unicode, in_class) {
            Ok((s[i + 1] as u32 % 32, i + 2))
        } else if unicode {
            bad
        } else {
            Ok(('\\' as u32, i))
        }
    } else if c == 'x' {
        match read_hex(s, i + 1, 2) {
            Some(v) => Ok((v, i + 3)),
            None => if unicode {
                bad
            } else {
                Ok(('x' as u32, i + 1))
            },
        }
    } else if c == 'u' {
        read_unicode_escape(s, unicode, i)
    } else if unicode && !(is_syntax_char(c) || c == '/' || (in_class && c == '-')) {
        bad
    } else {
        Ok((c as u32, i + 1))
    }
}

/// A number ends in the pattern, not before it began, and is capped.
pub proof fn lemma_number_bounds(s: Seq<char>, i: int, acc: int)
    requires
        0 <= i <= s.len(),
        0 <= acc <= MAX_NUMBER,
    ensures
        i <= number(s, i, acc).1 <= s.len(),
        0 <= number(s, i, acc).0 <= MAX_NUMBER,
    decreases s.len() - i,
{
    if i < s.len() && is_digit(s[i]) {
        lemma_number_bounds(s, i + 1, capped(acc * 10 + (s[i] as u32 - 0x30)));
    }
}

/// Hexadecimal digits in braces end in the pattern, behind where they
/// began, and give a code point.
pub proof fn lemma_braced_hex_bounds(s: Seq<char>, i: int, acc: int, seen: bool)
    requires
        0 <= i,
        0 <= acc <= 0x10_ffff,
    ensures
        braced_hex(s, i, acc, seen) matches Some((v, next)) ==> i < next <= s.len() && 0 <= v
            <= 0x10_ffff,
    decreases s.len() - i,
{
    if i < s.len() && s[i] != '}' && hex_value(s[i]) is Some {
        let v = acc * 16 + hex_value(s[i]).unwrap();
        if v <= 0x10_ffff {
            lemma_braced_hex_bounds(s, i + 1, v, true);
        }
    }
}

/// A run of hexadecimal digits lies in the pattern.
pub proof fn lemma_hex_run_bounds(s: Seq<char>, i: int, n: nat, acc: int)
    requires
        0 <= i,
    ensures
        n > 0 && hex_run(s, i, n, acc) is Some ==> i + n <= s.len(),
    decreases n,
{
    if n > 0 && i < s.len() && hex_value(s[i]) is Some {
        lemma_hex_run_bounds(s, i + 1, (n - 1) as nat, acc * 16 + hex_value(s[i]).unwrap());
    }
}

/// An escape ends in the pattern, behind its backslash; an error names the
/// backslash.
pub proof fn lemma_char_escape_bounds(s: Seq<char>, unicode: bool, in_class: bool, i: int)
    requires
        0 < i < s.len(),
    ensures
        char_escape(s, unicode, in_class, i) matches Ok((_, next)) ==> i <= next <= s.len(),
        char_escape(s, unicode, in_class, i) matches Err(e) ==> e == bad_escape(i - 1),
{
    lemma_hex_run_bounds(s, i + 1, 2, 0);
    lemma_hex_run_bounds(s, i + 1, 4, 0);
    lemma_hex_run_bounds(s, i + 7, 4, 0);
    lemma_braced_hex_bounds(s, i + 2, 0, false);
}

} // verus!
