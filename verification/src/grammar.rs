//! The grammar of patterns, and the code that each part of a pattern is
//! compiled to.
//!
//! The functions of this module say on sequences of characters what the
//! code of a pattern is.  Each reads one part of the pattern from an index
//! on and gives the code of the part and the index behind it.  They follow
//! the grammar of ECMA-262: a disjunction is made of alternatives, an
//! alternative of terms, and a term of an item and, maybe, a quantifier.
//!
//! Some of them stop with an error where what they read before ends
//! outside the pattern or where it began.  This never happens; the
//! conditions stand there to show that the functions come to an end.

use vstd::prelude::*;
use crate::class::{class_code, is_set_letter, set_ranges};
use crate::code::{
    directed, either_code, group_code, look_code, repeat_code, repeat_len, Quantifier,
    MAX_CODE_LEN,
};
use crate::error::{CompileError, SyntaxKind};
use crate::escape::{bad_escape, char_escape, is_digit, number, MAX_NUMBER};
use crate::flags::Flags;
use crate::program::Inst;

verus! {


/// The greatest number of groups, and of repetitions, a pattern may have.
pub const MAX_COUNT: usize = 0x1_0000;

/// How deeply groups may be nested.
pub const MAX_DEPTH: usize = 200;

/// What has been counted while a pattern is read.
#[derive(Clone, Copy, Debug, PartialEq, Eq, Structural)]
pub struct Counts {
    /// The number of groups so far, the whole match included.
    pub groups: usize,
    /// The number of repetitions so far.
    pub marks: usize,
    /// The greatest group number a back reference has named; 0 if there
    /// was none.
    pub max_ref: usize,
    /// Where that back reference stands.
    pub max_ref_at: usize,
    /// The greatest group number that a `\` and a number name as a back
    /// reference where the unicode flag is not set; a greater number is
    /// read as a character escape.  It stays as it is while a pattern is
    /// read.
    pub limit: usize,
}

/// A part of a pattern, compiled: what it is as a mathematical value.
pub struct Parsed {
    /// The instructions for the part.
    pub code: Seq<Inst>,
    /// The index of the first character behind the part.
    pub next: int,
    /// What has been counted up to there.
    pub counts: Counts,
    /// Whether a quantifier may follow.
    pub repeatable: bool,
}

/// The error of kind `kind` at index `at`.
pub open spec fn syntax_error(at: int, kind: SyntaxKind) -> CompileError {
    CompileError::Syntax(at as usize, kind)
}

/// The bounds that braces at `j` give, and the index behind them: `{n}`,
/// `{n,}` or `{n,m}`.  `None` if what stands at `j` is none of these.
pub open spec fn braces(s: Seq<char>, j: int) -> Option<(usize, Option<usize>, int)> {
    let (a, k) = number(s, j + 1, 0);
    if !(j + 1 < k < s.len()) {
        None
    } else if s[k] == '}' {
        Some((a as usize, Some(a as usize), k + 1))
    } else if s[k] == ',' {
        if k + 1 < s.len() && s[k + 1] == '}' {
            Some((a as usize, None, k + 2))
        } else {
            let (b, m) = number(s, k + 1, 0);
            if k + 1 < m < s.len() && s[m] == '}' {
                Some((a as usize, Some(b as usize), m + 1))
            } else {
                None
            }
        }
    } else {
        None
    }
}

/// The quantifier with the given bounds whose last character stands before
/// `next`, and the index behind it: a `?` there makes it lazy.
pub open spec fn with_laziness(s: Seq<char>, min: usize, max: Option<usize>, next: int) -> (
    Quantifier,
    int,
) {
    if 0 <= next < s.len() && s[next] == '?' {
        (Quantifier { min, max, greedy: false }, next + 1)
    } else {
        (Quantifier { min, max, greedy: true }, next)
    }
}

/// The quantifier written at `j`, if one is, and the index behind it.
///
/// `*`, `+` and `?` stand for none or more, one or more, and none or one.
/// Braces whose bounds are out of order are an error.  A `{` that begins no
/// quantifier is an error with the unicode flag, and no quantifier without
/// it.
#[verifier::opaque]
pub open spec fn quantifier(s: Seq<char>, unicode: bool, j: int) -> Result<
    Option<(Quantifier, int)>,
    CompileError,
> {
    if !(0 <= j < s.len()) {
        Ok(None)
    } else if s[j] == '*' {
        Ok(Some(with_laziness(s, 0, None, j + 1)))
    } else if s[j] == '+' {
        Ok(Some(with_laziness(s, 1, None, j + 1)))
    } else if s[j] == '?' {
        Ok(Some(with_laziness(s, 0, Some(1usize), j + 1)))
    } else if s[j] == '{' {
        match braces(s, j) {
            Some((min, max, next)) => {
                if max matches Some(m) && m < min {
                    Err(syntax_error(j, SyntaxKind::QuantifierOutOfOrder))
                } else {
                    Ok(Some(with_laziness(s, min, max, next)))
                }
            },
            None => if unicode {
                Err(syntax_error(j, SyntaxKind::LoneBracket))
            } else {
                Ok(None)
            },
        }
    } else {
        Ok(None)
    }
}

/// `n` after a back reference to group `v` that stands at `at`.
pub open spec fn with_ref(n: Counts, v: usize, at: int) -> Counts {
    if v > n.max_ref {
        Counts { max_ref: v, max_ref_at: at as usize, ..n }
    } else {
        n
    }
}

/// The item that the escape at `i` stands for.
///
/// The letter of a set gives a class, `\b` and `\B` the word boundary and
/// its opposite, a number that does not begin with `0` a back reference to
/// the group of that number, and anything else a character.  Without the
/// unicode flag, a number above the limit of `n` is no back reference, but
/// the escape of a character.
#[verifier::opaque]
pub open spec fn escape_atom(s: Seq<char>, f: Flags, i: int, n: Counts, back: bool) -> Result<
    Parsed,
    CompileError,
>
    recommends
        0 <= i < s.len(),
{
    if i + 1 >= s.len() {
        Err(bad_escape(i))
    } else if is_set_letter(s[i + 1]) {
        Ok(
            Parsed {
                code: directed(
                    seq![
                        Inst::Class {
                            negated: false,
                            count: set_ranges(s[i + 1], f).len() as u32,
                        },
                    ] + set_ranges(s[i + 1], f),
                    back,
                ),
                next: i + 2,
                counts: n,
                repeatable: true,
            },
        )
    } else if s[i + 1] == 'b' {
        Ok(Parsed { code: seq![Inst::WordBoundary], next: i + 2, counts: n, repeatable: false })
    } else if s[i + 1] == 'B' {
        Ok(Parsed { code: seq![Inst::NotWordBoundary], next: i + 2, counts: n, repeatable: false })
    } else if is_digit(s[i + 1]) && s[i + 1] != '0' && (f.unicode || number(s, i + 1, 0).0
        <= n.limit) {
        let (v, next) = number(s, i + 1, 0);
        Ok(
            Parsed {
                code: if back {
                    seq![Inst::BackRefBack(v as u32)]
                } else {
                    seq![Inst::BackRef(v as u32)]
                },
                next,
                counts: with_ref(n, v as usize, i),
                repeatable: true,
            },
        )
    } else {
        match char_escape(s, f.unicode, false, i + 1) {
            Ok((v, next)) => Ok(
                Parsed {
                    code: directed(seq![Inst::Char(v)], back),
                    next,
                    counts: n,
                    repeatable: true,
                },
            ),
            Err(e) => Err(e),
        }
    }
}

/// The item that ends at the `)` which must stand behind `inner`, the
/// content of a group that began at `open`; `code` is the code of the whole
/// item.
pub open spec fn group_end(
    s: Seq<char>,
    open: int,
    inner: Parsed,
    code: Seq<Inst>,
    repeatable: bool,
) -> Result<Parsed, CompileError> {
    if !(0 <= inner.next < s.len() && s[inner.next] == ')') {
        Err(syntax_error(open, SyntaxKind::UnterminatedGroup))
    } else if code.len() > MAX_CODE_LEN {
        Err(syntax_error(open, SyntaxKind::TooLarge))
    } else {
        Ok(Parsed { code, next: inner.next + 1, counts: inner.counts, repeatable })
    }
}

/// The alternatives written from `i` on, separated by `|`, up to a `)` or
/// the end of the pattern; `acc` is the code of those already read.
pub open spec fn disjunction(
    s: Seq<char>,
    f: Flags,
    i: int,
    n: Counts,
    back: bool,
    depth: nat,
    acc: Option<Seq<Inst>>,
) -> Result<Parsed, CompileError>
    decreases s.len() - i, 3int,
{
    if !(0 <= i <= s.len()) {
        Err(syntax_error(i, SyntaxKind::TooLarge))
    } else {
        match alternative(s, f, i, n, back, depth, Seq::empty()) {
            Err(e) => Err(e),
            Ok(a) => {
                let code = match acc {
                    None => a.code,
                    Some(before) => either_code(before, a.code),
                };
                if code.len() > MAX_CODE_LEN {
                    Err(syntax_error(i, SyntaxKind::TooLarge))
                } else if i <= a.next < s.len() && s[a.next] == '|' {
                    disjunction(s, f, a.next + 1, a.counts, back, depth, Some(code))
                } else {
                    Ok(Parsed { code, next: a.next, counts: a.counts, repeatable: false })
                }
            },
        }
    }
}

/// The terms written from `i` on, up to a `|`, a `)` or the end of the
/// pattern; `acc` is the code of those already read.  Read backwards, the
/// terms are matched last to first.
pub open spec fn alternative(
    s: Seq<char>,
    f: Flags,
    i: int,
    n: Counts,
    back: bool,
    depth: nat,
    acc: Seq<Inst>,
) -> Result<Parsed, CompileError>
    decreases s.len() - i, 2int,
{
    if !(0 <= i < s.len()) || s[i] == '|' || s[i] == ')' {
        Ok(Parsed { code: acc, next: i, counts: n, repeatable: false })
    } else {
        match term(s, f, i, n, back, depth) {
            Err(e) => Err(e),
            Ok(t) => {
                let code = if back {
                    t.code + acc
                } else {
                    acc + t.code
                };
                if code.len() > MAX_CODE_LEN || !(i < t.next <= s.len()) {
                    Err(syntax_error(i, SyntaxKind::TooLarge))
                } else {
                    alternative(s, f, t.next, t.counts, back, depth, code)
                }
            },
        }
    }
}

/// The term written at `i`: an item and the quantifier behind it, if there
/// is one.
pub open spec fn term(s: Seq<char>, f: Flags, i: int, n: Counts, back: bool, depth: nat) -> Result<
    Parsed,
    CompileError,
>
    decreases s.len() - i, 1int,
{
    if !(0 <= i < s.len()) {
        Err(syntax_error(i, SyntaxKind::TooLarge))
    } else {
        match atom(s, f, i, n, back, depth) {
            Err(e) => Err(e),
            Ok(a) => match quantifier(s, f.unicode, a.next) {
                Err(e) => Err(e),
                Ok(None) => Ok(a),
                Ok(Some((q, next))) => {
                    let lo = (2 * n.groups) as u32;
                    let hi = (2 * a.counts.groups) as u32;
                    if !a.repeatable {
                        Err(syntax_error(a.next, SyntaxKind::NothingToRepeat))
                    } else if a.counts.marks >= MAX_COUNT || repeat_len(
                        a.code.len() as int,
                        q,
                        lo,
                        hi,
                    ) > MAX_CODE_LEN {
                        Err(syntax_error(i, SyntaxKind::TooLarge))
                    } else {
                        Ok(
                            Parsed {
                                code: repeat_code(a.code, q, lo, hi, a.counts.marks as u32),
                                next,
                                counts: Counts {
                                    marks: (a.counts.marks + 1) as usize,
                                    ..a.counts
                                },
                                repeatable: false,
                            },
                        )
                    }
                },
            },
        }
    }
}

/// The item written at `i`: an assertion, a character, a class, an escape
/// or a group.  A lookahead may be repeated where the unicode flag is not
/// set; no other assertion may.
pub open spec fn atom(s: Seq<char>, f: Flags, i: int, n: Counts, back: bool, depth: nat) -> Result<
    Parsed,
    CompileError,
>
    decreases s.len() - i, 0int,
{
    if !(0 <= i < s.len()) {
        Err(syntax_error(i, SyntaxKind::TooLarge))
    } else if s[i] == '^' {
        Ok(
            Parsed {
                code: seq![
                    if f.multi_line {
                        Inst::StartLine
                    } else {
                        Inst::Start
                    },
                ],
                next: i + 1,
                counts: n,
                repeatable: false,
            },
        )
    } else if s[i] == '$' {
        Ok(
            Parsed {
                code: seq![
                    if f.multi_line {
                        Inst::EndLine
                    } else {
                        Inst::End
                    },
                ],
                next: i + 1,
                counts: n,
                repeatable: false,
            },
        )
    } else if s[i] == '.' {
        Ok(
            Parsed {
                code: directed(
                    seq![
                        if f.dot_all {
                            Inst::AnyAll
                        } else {
                            Inst::Any
                        },
                    ],
                    back,
                ),
                next: i + 1,
                counts: n,
                repeatable: true,
            },
        )
    } else if s[i] == '[' {
        match class_code(s, f, i) {
            Ok((code, next)) => Ok(
                Parsed { code: directed(code, back), next, counts: n, repeatable: true },
            ),
            Err(e) => Err(e),
        }
    } else if s[i] == '\\' {
        escape_atom(s, f, i, n, back)
    } else if s[i] == '*' || s[i] == '+' || s[i] == '?' {
        Err(syntax_error(i, SyntaxKind::NothingToRepeat))
    } else if s[i] == ')' {
        Err(syntax_error(i, SyntaxKind::UnmatchedParen))
    } else if s[i] == '{' && (f.unicode || braces(s, i) is Some) {
        Err(
            syntax_error(
                i,
                if f.unicode {
                    SyntaxKind::LoneBracket
                } else {
                    SyntaxKind::NothingToRepeat
                },
            ),
        )
    } else if (s[i] == '}' || s[i] == ']') && f.unicode {
        Err(syntax_error(i, SyntaxKind::LoneBracket))
    } else if s[i] != '(' {
        Ok(
            Parsed {
                code: directed(seq![Inst::Char(s[i] as u32)], back),
                next: i + 1,
                counts: n,
                repeatable: true,
            },
        )
    } else if depth == 0 {
        Err(syntax_error(i, SyntaxKind::TooDeep))
    } else if !(i + 1 < s.len() && s[i + 1] == '?') {
        if n.groups >= MAX_COUNT {
            Err(syntax_error(i, SyntaxKind::TooLarge))
        } else {
            let inside = Counts { groups: (n.groups + 1) as usize, ..n };
            match disjunction(s, f, i + 1, inside, back, (depth - 1) as nat, None) {
                Err(e) => Err(e),
                Ok(inner) => group_end(
                    s,
                    i,
                    inner,
                    group_code(n.groups as int, inner.code, back),
                    true,
                ),
            }
        }
    } else if i + 2 < s.len() && s[i + 2] == ':' {
        match disjunction(s, f, i + 3, n, back, (depth - 1) as nat, None) {
            Err(e) => Err(e),
            Ok(inner) => group_end(s, i, inner, inner.code, true),
        }
    } else if i + 2 < s.len() && (s[i + 2] == '=' || s[i + 2] == '!') {
        match disjunction(s, f, i + 3, n, false, (depth - 1) as nat, None) {
            Err(e) => Err(e),
            Ok(inner) => group_end(
                s,
                i,
                inner,
                look_code(s[i + 2] == '!', inner.code),
                !f.unicode,
            ),
        }
    } else if i + 3 < s.len() && s[i + 2] == '<' && (s[i + 3] == '=' || s[i + 3] == '!') {
        match disjunction(s, f, i + 4, n, true, (depth - 1) as nat, None) {
            Err(e) => Err(e),
            Ok(inner) => group_end(s, i, inner, look_code(s[i + 3] == '!', inner.code), false),
        }
    } else {
        Err(syntax_error(i, SyntaxKind::InvalidGroup))
    }
}

/// Whether the counts are within the limits of the compiler.
pub open spec fn counts_ok(n: Counts) -> bool {
    &&& 1 <= n.groups <= MAX_COUNT
    &&& n.marks <= MAX_COUNT
    &&& n.max_ref <= MAX_NUMBER
}

} // verus!
