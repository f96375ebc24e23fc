//! Character classes in pattern text: `[...]` and the sets `\d \w \s`.

use vstd::prelude::*;
use crate::error::{CompileError, SyntaxKind};
use crate::flags::Flags;
use crate::escape::{
    bad_escape, char_escape, lemma_char_escape_bounds, read_char_escape, MAX_PATTERN_LEN,
};
use crate::program::Inst;
use crate::valid::{closed, lemma_closed_class, Limits};

verus! {

/// The greatest number of ranges a class may list.
pub const MAX_CLASS_RANGES: usize = 0xff00;

/// Whether `c` names one of the sets `\d \D \w \W \s \S`.
pub open spec fn spec_is_set_letter(c: char) -> bool {
    c == 'd' || c == 'D' || c == 'w' || c == 'W' || c == 's' || c == 'S'
}

/// Whether `c` names one of the sets `\d \D \w \W \s \S`.
#[verifier::when_used_as_spec(spec_is_set_letter)]
pub fn is_set_letter(c: char) -> (r: bool)
    ensures
        r == spec_is_set_letter(c),
{
    c == 'd' || c == 'D' || c == 'w' || c == 'W' || c == 's' || c == 'S'
}

/// Whether a set is to leave out the code points that are word characters
/// only because case is ignored: the long s and the Kelvin sign, which
/// with both flags are forms of `s` and `k`.
pub open spec fn spec_folds_words(f: Flags) -> bool {
    f.ignore_case && f.unicode
}

/// Whether a set is to leave out the code points that are word characters
/// only because case is ignored.
#[verifier::when_used_as_spec(spec_folds_words)]
pub fn folds_words(f: Flags) -> (r: bool)
    ensures
        r == spec_folds_words(f),
{
    f.ignore_case && f.unicode
}

/// The ranges of the set that the letter `c` names: the digits for `d`,
/// the word characters for `w`, white space and line terminators for `s`,
/// and for the capital letter all other code points.
#[verifier::opaque]
pub open spec fn set_ranges(c: char, f: Flags) -> Seq<Inst> {
    if c == 'W' && folds_words(f) {
        seq![
            Inst::Range(0, 0x2f),
            Inst::Range(0x3a, 0x40),
            Inst::Range(0x5b, 0x5e),
            Inst::Range(0x60, 0x60),
            Inst::Range(0x7b, 0x17e),
            Inst::Range(0x180, 0x2129),
            Inst::Range(0x212b, 0x10_ffff),
        ]
    } else if c == 'd' {
        seq![Inst::Range(0x30, 0x39)]
    } else if c == 'D' {
        seq![Inst::Range(0, 0x2f), Inst::Range(0x3a, 0x10_ffff)]
    } else if c == 'w' {
        seq![
            Inst::Range(0x30, 0x39),
            Inst::Range(0x41, 0x5a),
            Inst::Range(0x5f, 0x5f),
            Inst::Range(0x61, 0x7a),
        ]
    } else if c == 'W' {
        seq![
            Inst::Range(0, 0x2f),
            Inst::Range(0x3a, 0x40),
            Inst::Range(0x5b, 0x5e),
            Inst::Range(0x60, 0x60),
            Inst::Range(0x7b, 0x10_ffff),
        ]
    } else if c == 's' {
        seq![
            Inst::Range(0x09, 0x0d),
            Inst::Range(0x20, 0x20),
            Inst::Range(0xa0, 0xa0),
            Inst::Range(0x1680, 0x1680),
            Inst::Range(0x2000, 0x200a),
            Inst::Range(0x2028, 0x2029),
            Inst::Range(0x202f, 0x202f),
            Inst::Range(0x205f, 0x205f),
            Inst::Range(0x3000, 0x3000),
            Inst::Range(0xfeff, 0xfeff),
        ]
    } else {
        seq![
            Inst::Range(0, 0x08),
            Inst::Range(0x0e, 0x1f),
            Inst::Range(0x21, 0x9f),
            Inst::Range(0xa1, 0x167f),
            Inst::Range(0x1681, 0x1fff),
            Inst::Range(0x200b, 0x2027),
            Inst::Range(0x202a, 0x202e),
            Inst::Range(0x2030, 0x205e),
            Inst::Range(0x2060, 0x2fff),
            Inst::Range(0x3001, 0xfefe),
            Inst::Range(0xff00, 0x10_ffff),
        ]
    }
}

/// Appends the ranges of the set that the letter `c` names.
pub(crate) fn push_set(out: &mut Vec<Inst>, c: char, f: Flags)
    ensures
        final(out)@ == old(out)@ + set_ranges(c, f),
        set_ranges(c, f).len() <= 11,
{
    reveal(set_ranges);
    if c == 'W' && folds_words(f) {
        out.push(Inst::Range(0, 0x2f));
        out.push(Inst::Range(0x3a, 0x40));
        out.push(Inst::Range(0x5b, 0x5e));
        out.push(Inst::Range(0x60, 0x60));
        out.push(Inst::Range(0x7b, 0x17e));
        out.push(Inst::Range(0x180, 0x2129));
        out.push(Inst::Range(0x212b, 0x10_ffff));
    } else if c == 'd' {
        out.push(Inst::Range(0x30, 0x39));
    } else if c == 'D' {
        out.push(Inst::Range(0, 0x2f));
        out.push(Inst::Range(0x3a, 0x10_ffff));
    } else if c == 'w' {
        out.push(Inst::Range(0x30, 0x39));
        out.push(Inst::Range(0x41, 0x5a));
        out.push(Inst::Range(0x5f, 0x5f));
        out.push(Inst::Range(0x61, 0x7a));
    } else if c == 'W' {
        out.push(Inst::Range(0, 0x2f));
        out.push(Inst::Range(0x3a, 0x40));
        out.push(Inst::Range(0x5b, 0x5e));
        out.push(Inst::Range(0x60, 0x60));
        out.push(Inst::Range(0x7b, 0x10_ffff));
    } else if c == 's' {
        out.push(Inst::Range(0x09, 0x0d));
        out.push(Inst::Range(0x20, 0x20));
        out.push(Inst::Range(0xa0, 0xa0));
        out.push(Inst::Range(0x1680, 0x1680));
        out.push(Inst::Range(0x2000, 0x200a));
        out.push(Inst::Range(0x2028, 0x2029));
        out.push(Inst::Range(0x202f, 0x202f));
        out.push(Inst::Range(0x205f, 0x205f));
        out.push(Inst::Range(0x3000, 0x3000));
        out.push(Inst::Range(0xfeff, 0xfeff));
    } else {
        out.push(Inst::Range(0, 0x08));
        out.push(Inst::Range(0x0e, 0x1f));
        out.push(Inst::Range(0x21, 0x9f));
        out.push(Inst::Range(0xa1, 0x167f));
        out.push(Inst::Range(0x1681, 0x1fff));
        out.push(Inst::Range(0x200b, 0x2027));
        out.push(Inst::Range(0x202a, 0x202e));
        out.push(Inst::Range(0x2030, 0x205e));
        out.push(Inst::Range(0x2060, 0x2fff));
        out.push(Inst::Range(0x3001, 0xfefe));
        out.push(Inst::Range(0xff00, 0x10_ffff));
    }
    assert(out@ =~= old(out)@ + set_ranges(c, f));
}

/// One member of a class as it is written: a single code point, or the
/// letter of a set.
#[derive(Clone, Copy, Debug, PartialEq, Eq, Structural)]
pub enum ClassItem {
    /// One code point.
    One(u32),
    /// One of the sets `\d \D \w \W \s \S`, by its letter.
    Named(char),
}

/// The ranges that a member of a class stands for.
pub open spec fn item_ranges(item: ClassItem, f: Flags) -> Seq<Inst> {
    match item {
        ClassItem::One(x) => seq![Inst::Range(x, x)],
        ClassItem::Named(c) => set_ranges(c, f),
    }
}

/// Appends the ranges that a member of a class stands for.
pub(crate) fn push_item(out: &mut Vec<Inst>, item: ClassItem, f: Flags)
    ensures
        final(out)@ == old(out)@ + item_ranges(item, f),
        item_ranges(item, f).len() <= 11,
{
    match item {
        ClassItem::One(x) => {
            out.push(Inst::Range(x, x));
            assert(out@ =~= old(out)@ + item_ranges(item, f));
        },
        ClassItem::Named(c) => {
            push_set(out, c, f);
        },
    }
}

/// The member of a class written at `j`, and the index behind it.
///
/// A `\` begins an escape: the letter of a set, `\b` for the backspace
/// character, or a character escape.  Any other character is itself.
pub open spec fn class_item(s: Seq<char>, unicode: bool, j: int) -> Result<
    (ClassItem, int),
    CompileError,
>
    recommends
        0 <= j < s.len(),
{
    if s[j] == '\\' {
        if j + 1 >= s.len() {
            Err(bad_escape(j))
        } else if is_set_letter(s[j + 1]) {
            Ok((ClassItem::Named(s[j + 1]), j + 2))
        } else if s[j + 1] == 'b' {
            Ok((ClassItem::One(8u32), j + 2))
        } else {
            match char_escape(s, unicode, true, j + 1) {
                Ok((v, next)) => Ok((ClassItem::One(v), next)),
                Err(e) => Err(e),
            }
        }
    } else {
        Ok((ClassItem::One(s[j] as u32), j + 1))
    }
}

/// The mathematical value of what reading a class member gave.
pub open spec fn item_view(r: Result<(ClassItem, usize), CompileError>) -> Result<
    (ClassItem, int),
    CompileError,
> {
    match r {
        Ok((item, next)) => Ok((item, next as int)),
        Err(e) => Err(e),
    }
}

/// Reads the member of a class written at `j`.
pub(crate) fn read_class_item(s: &Vec<char>, unicode: bool, j: usize) -> (r: Result<
    (ClassItem, usize),
    CompileError,
>)
    requires
        j < s.len() <= MAX_PATTERN_LEN,
    ensures
        item_view(r) == class_item(s@, unicode, j as int),
        r matches Ok((_, next)) ==> j < next <= s.len(),
{
    if s[j] == '\\' {
        if j + 1 >= s.len() {
            Err(CompileError::Syntax(j, SyntaxKind::InvalidEscape))
        } else if is_set_letter(s[j + 1]) {
            Ok((ClassItem::Named(s[j + 1]), j + 2))
        } else if s[j + 1] == 'b' {
            Ok((ClassItem::One(8), j + 2))
        } else {
            match read_char_escape(s, unicode, true, j + 1) {
                Ok((v, next)) => Ok((ClassItem::One(v), next)),
                Err(e) => Err(e),
            }
        }
    } else {
        Ok((ClassItem::One(s[j] as u32), j + 1))
    }
}

/// The error for a class that begins at `open`.
pub open spec fn class_error(open: int, kind: SyntaxKind) -> CompileError {
    CompileError::Syntax(open as usize, kind)
}

/// The ranges of the class whose members are written from `j` on, after
/// members that gave the ranges `acc`, and the index behind the `]` that
/// ends it.  `open` is where the class began.
///
/// A member, a `-` and another member form a range if both members are
/// single code points; its ends must be in order.  If one of them is a
/// set, that is an error with the unicode flag, and without it the three
/// stand for themselves.  A `-` that is first or last stands for itself.
pub open spec fn class_items(s: Seq<char>, f: Flags, open: int, j: int, acc: Seq<Inst>) -> Result<
    (Seq<Inst>, int),
    CompileError,
>
    decreases s.len() - j,
{
    if !(0 <= j < s.len()) {
        Err(class_error(open, SyntaxKind::UnterminatedClass))
    } else if s[j] == ']' {
        Ok((acc, j + 1))
    } else if acc.len() > MAX_CLASS_RANGES {
        Err(class_error(open, SyntaxKind::TooLarge))
    } else {
        match class_item(s, f.unicode, j) {
            Err(e) => Err(e),
            Ok((a, k)) => {
                if !(j < k <= s.len()) {
                    Err(class_error(open, SyntaxKind::UnterminatedClass))
                } else if k + 1 < s.len() && s[k] == '-' && s[k + 1] != ']' {
                    match class_item(s, f.unicode, k + 1) {
                        Err(e) => Err(e),
                        Ok((b, m)) => {
                            if !(k < m <= s.len()) {
                                Err(class_error(open, SyntaxKind::UnterminatedClass))
                            } else {
                                match (a, b) {
                                    (ClassItem::One(x), ClassItem::One(y)) => if x <= y {
                                        class_items(s, f,
                                            open,
                                            m,
                                            acc.push(Inst::Range(x, y)),
                                        )
                                    } else {
                                        Err(class_error(j, SyntaxKind::InvalidClassRange))
                                    },
                                    _ => if f.unicode {
                                        Err(class_error(j, SyntaxKind::InvalidClassRange))
                                    } else {
                                        class_items(s, f,
                                            open,
                                            m,
                                            acc + item_ranges(a, f) + seq![Inst::Range(0x2d, 0x2d)]
                                                + item_ranges(b, f),
                                        )
                                    },
                                }
                            }
                        },
                    }
                } else {
                    class_items(s, f, open, k, acc + item_ranges(a, f))
                }
            },
        }
    }
}

/// The instructions for the class that begins with the `[` at `i`, and the
/// index behind its `]`.  A `^` directly after the `[` negates the class.
#[verifier::opaque]
pub open spec fn class_code(s: Seq<char>, f: Flags, i: int) -> Result<
    (Seq<Inst>, int),
    CompileError,
>
    recommends
        0 <= i < s.len(),
{
    let negated = i + 1 < s.len() && s[i + 1] == '^';
    let from = if negated {
        i + 2
    } else {
        i + 1
    };
    match class_items(s, f, i, from, Seq::empty()) {
        Err(e) => Err(e),
        Ok((ranges, next)) => Ok(
            (seq![Inst::Class { negated, count: ranges.len() as u32 }] + ranges, next),
        ),
    }
}

/// The mathematical value of what reading a class gave.
pub open spec fn class_view(r: Result<(Vec<Inst>, usize), CompileError>) -> Result<
    (Seq<Inst>, int),
    CompileError,
> {
    match r {
        Ok((code, next)) => Ok((code@, next as int)),
        Err(e) => Err(e),
    }
}

/// Reads the class that begins with the `[` at `i`.
pub(crate) fn read_class(s: &Vec<char>, f: Flags, i: usize) -> (r: Result<
    (Vec<Inst>, usize),
    CompileError,
>)
    requires
        i < s.len() <= MAX_PATTERN_LEN,
    ensures
        class_view(r) == class_code(s@, f, i as int),
        r matches Ok((code, next)) ==> i < next <= s.len() && 1 <= code.len() <= MAX_CLASS_RANGES
            + 31,
{
    reveal(class_code);
    let negated = i + 1 < s.len() && s[i + 1] == '^';
    let from = if negated {
        i + 2
    } else {
        i + 1
    };
    let mut acc: Vec<Inst> = Vec::new();
    let mut j: usize = from;
    let ghost goal = class_items(s@, f, i as int, from as int, Seq::empty());
    loop
        invariant
            i < from <= j,
            j <= s.len() || j == from,
            s.len() <= MAX_PATTERN_LEN,
            negated == (i + 1 < s.len() && s[i + 1] == '^'),
            from == if negated {
                i + 2
            } else {
                i + 1
            },
            acc.len() <= MAX_CLASS_RANGES + 30,
            goal == class_items(s@, f, i as int, from as int, Seq::empty()),
            goal == class_items(s@, f, i as int, j as int, acc@),
        decreases s.len() + 2 - j,
    {
        let ghost ranges = acc@;
        proof {
            reveal(class_code);
        }
        if j >= s.len() {
            return Err(CompileError::Syntax(i, SyntaxKind::UnterminatedClass));
        }
        if s[j] == ']' {
            let count = acc.len() as u32;
            acc.insert(0, Inst::Class { negated, count });
            assert(acc@ =~= seq![Inst::Class { negated, count }] + ranges);
            return Ok((acc, j + 1));
        }
        if acc.len() > MAX_CLASS_RANGES {
            return Err(CompileError::Syntax(i, SyntaxKind::TooLarge));
        }
        let (a, k) = match read_class_item(s, f.unicode, j) {
            Ok(x) => x,
            Err(e) => {
                return Err(e);
            },
        };
        if k + 1 < s.len() && s[k] == '-' && s[k + 1] != ']' {
            let (b, m) = match read_class_item(s, f.unicode, k + 1) {
                Ok(x) => x,
                Err(e) => {
                    return Err(e);
                },
            };
            match (a, b) {
                (ClassItem::One(x), ClassItem::One(y)) => {
                    if x <= y {
                        acc.push(Inst::Range(x, y));
                    } else {
                        return Err(CompileError::Syntax(j, SyntaxKind::InvalidClassRange));
                    }
                },
                _ => {
                    if f.unicode {
                        return Err(CompileError::Syntax(j, SyntaxKind::InvalidClassRange));
                    }
                    push_item(&mut acc, a, f);
                    acc.push(Inst::Range(0x2d, 0x2d));
                    push_item(&mut acc, b, f);
                    assert(acc@ =~= ranges + item_ranges(a, f) + seq![Inst::Range(0x2d, 0x2d)]
                        + item_ranges(b, f));
                },
            }
            j = m;
        } else {
            push_item(&mut acc, a, f);
            j = k;
        }
    }
}

/// Whether `e` names a character of a pattern of `len` characters, or
/// its end.
pub open spec fn error_within(e: CompileError, len: int) -> bool {
    e matches CompileError::Syntax(at, _) && at <= len
}

/// A member of a class ends in the pattern, behind where it began.
pub proof fn lemma_class_item_bounds(s: Seq<char>, unicode: bool, j: int)
    requires
        0 <= j < s.len(),
    ensures
        class_item(s, unicode, j) matches Ok((_, next)) ==> j < next <= s.len(),
        class_item(s, unicode, j) matches Err(e) ==> error_within(e, s.len() as int),
{
    if s[j] == '\\' && j + 1 < s.len() {
        lemma_char_escape_bounds(s, unicode, true, j + 1);
    }
}

/// The members of a class end in the pattern, behind where they began.
pub proof fn lemma_class_items_bounds(s: Seq<char>, f: Flags, open: int, j: int, acc: Seq<Inst>)
    requires
        0 <= open < j,
        open < s.len(),
    ensures
        class_items(s, f, open, j, acc) matches Ok((_, next)) ==> j < next <= s.len(),
        class_items(s, f, open, j, acc) matches Err(e) ==> error_within(e, s.len() as int),
    decreases s.len() - j,
{
    if 0 <= j < s.len() && s[j] != ']' && acc.len() <= MAX_CLASS_RANGES {
        lemma_class_item_bounds(s, f.unicode, j);
        match class_item(s, f.unicode, j) {
            Err(e) => {},
            Ok((a, k)) => {
                if k + 1 < s.len() && s[k] == '-' && s[k + 1] != ']' {
                    lemma_class_item_bounds(s, f.unicode, k + 1);
                    match class_item(s, f.unicode, k + 1) {
                        Err(e) => {},
                        Ok((b, m)) => {
                            match (a, b) {
                                (ClassItem::One(x), ClassItem::One(y)) => {
                                    if x <= y {
                                        lemma_class_items_bounds(
                                            s,
                                            f,
                                            open,
                                            m,
                                            acc.push(Inst::Range(x, y)),
                                        );
                                    }
                                },
                                _ => {
                                    if !f.unicode {
                                        lemma_class_items_bounds(
                                            s,
                                            f,
                                            open,
                                            m,
                                            acc + item_ranges(a, f) + seq![Inst::Range(0x2d, 0x2d)]
                                                + item_ranges(b, f),
                                        );
                                    }
                                },
                            }
                        },
                    }
                } else {
                    lemma_class_items_bounds(s, f, open, k, acc + item_ranges(a, f));
                }
            },
        }
    }
}

/// A class ends in the pattern, behind where it began.
pub proof fn lemma_class_code_bounds(s: Seq<char>, f: Flags, i: int)
    requires
        0 <= i < s.len(),
    ensures
        class_code(s, f, i) matches Ok((_, next)) ==> i < next <= s.len(),
        class_code(s, f, i) matches Err(e) ==> error_within(e, s.len() as int),
{
    reveal(class_code);
    let negated = i + 1 < s.len() && s[i + 1] == '^';
    let from = if negated {
        i + 2
    } else {
        i + 1
    };
    lemma_class_items_bounds(s, f, i, from, Seq::empty());
}

/// Whether every entry of `r` is a range.
pub open spec fn all_ranges(r: Seq<Inst>) -> bool {
    forall|j: int| 0 <= j < r.len() ==> #[trigger] r[j] is Range
}

/// A set is made of ranges, eleven at most.
pub proof fn lemma_set_ranges(c: char, f: Flags)
    ensures
        all_ranges(set_ranges(c, f)),
        set_ranges(c, f).len() <= 11,
{
    reveal(set_ranges);
}

/// A member of a class stands for ranges, eleven at most.
pub proof fn lemma_item_ranges(item: ClassItem, f: Flags)
    ensures
        all_ranges(item_ranges(item, f)),
        item_ranges(item, f).len() <= 11,
{
    match item {
        ClassItem::One(x) => {},
        ClassItem::Named(c) => {
            lemma_set_ranges(c, f);
        },
    }
}

/// The members of a class give ranges, and not too many.
pub proof fn lemma_class_items_ranges(s: Seq<char>, f: Flags, open: int, j: int, acc: Seq<Inst>)
    requires
        all_ranges(acc),
        acc.len() <= MAX_CLASS_RANGES + 23,
    ensures
        class_items(s, f, open, j, acc) matches Ok((r, _)) ==> all_ranges(r) && r.len()
            <= MAX_CLASS_RANGES + 23,
    decreases s.len() - j,
{
    if 0 <= j < s.len() && s[j] != ']' && acc.len() <= MAX_CLASS_RANGES {
        match class_item(s, f.unicode, j) {
            Err(e) => {},
            Ok((a, k)) => {
                lemma_item_ranges(a, f);
                if !(j < k <= s.len()) {
                } else if k + 1 < s.len() && s[k] == '-' && s[k + 1] != ']' {
                    match class_item(s, f.unicode, k + 1) {
                        Err(e) => {},
                        Ok((b, m)) => {
                            lemma_item_ranges(b, f);
                            if k < m <= s.len() {
                                match (a, b) {
                                    (ClassItem::One(x), ClassItem::One(y)) => {
                                        if x <= y {
                                            lemma_class_items_ranges(
                                                s,
                                                f,
                                                open,
                                                m,
                                                acc.push(Inst::Range(x, y)),
                                            );
                                        }
                                    },
                                    _ => {
                                        if !f.unicode {
                                            lemma_class_items_ranges(
                                                s,
                                                f,
                                                open,
                                                m,
                                                acc + item_ranges(a, f) + seq![
                                                    Inst::Range(0x2d, 0x2d),
                                                ] + item_ranges(b, f),
                                            );
                                        }
                                    },
                                }
                            }
                        },
                    }
                } else {
                    lemma_class_items_ranges(s, f, open, k, acc + item_ranges(a, f));
                }
            },
        }
    }
}

/// The code of a class is closed, and not too long.
pub proof fn lemma_class_code_closed(s: Seq<char>, f: Flags, i: int, l: Limits)
    ensures
        class_code(s, f, i) matches Ok((code, _)) ==> closed(code, l) && code.len()
            <= MAX_CLASS_RANGES + 24,
{
    reveal(class_code);
    let negated = i + 1 < s.len() && s[i + 1] == '^';
    let from = if negated {
        i + 2
    } else {
        i + 1
    };
    lemma_class_items_ranges(s, f, i, from, Seq::empty());
    match class_items(s, f, i, from, Seq::empty()) {
        Err(e) => {},
        Ok((ranges, next)) => {
            lemma_closed_class(negated, ranges, l);
        },
    }
}

/// Whether two sets of flags agree in the flags that bear on what a
/// pattern compiles to: all but `g` and `y`.
pub open spec fn same_syntax(f: Flags, g: Flags) -> bool {
    &&& f.ignore_case == g.ignore_case
    &&& f.multi_line == g.multi_line
    &&& f.dot_all == g.dot_all
    &&& f.unicode == g.unicode
}

/// The members of a class do not depend on the flags `g` and `y`.
pub proof fn lemma_class_items_same(
    s: Seq<char>,
    f: Flags,
    g: Flags,
    open: int,
    j: int,
    acc: Seq<Inst>,
)
    requires
        same_syntax(f, g),
    ensures
        class_items(s, f, open, j, acc) == class_items(s, g, open, j, acc),
    decreases s.len() - j,
{
    reveal(set_ranges);
    if 0 <= j < s.len() && s[j] != ']' && acc.len() <= MAX_CLASS_RANGES {
        match class_item(s, f.unicode, j) {
            Err(e) => {},
            Ok((a, k)) => {
                assert(item_ranges(a, f) == item_ranges(a, g));
                if !(j < k <= s.len()) {
                } else if k + 1 < s.len() && s[k] == '-' && s[k + 1] != ']' {
                    match class_item(s, f.unicode, k + 1) {
                        Err(e) => {},
                        Ok((b, m)) => {
                            assert(item_ranges(b, f) == item_ranges(b, g));
                            if k < m <= s.len() {
                                match (a, b) {
                                    (ClassItem::One(x), ClassItem::One(y)) => {
                                        if x <= y {
                                            lemma_class_items_same(
                                                s,
                                                f,
                                                g,
                                                open,
                                                m,
                                                acc.push(Inst::Range(x, y)),
                                            );
                                        }
                                    },
                                    _ => {
                                        if !f.unicode {
                                            lemma_class_items_same(
                                                s,
                                                f,
                                                g,
                                                open,
                                                m,
                                                acc + item_ranges(a, f) + seq![
                                                    Inst::Range(0x2d, 0x2d),
                                                ] + item_ranges(b, f),
                                            );
                                        }
                                    },
                                }
                            }
                        },
                    }
                } else {
                    lemma_class_items_same(s, f, g, open, k, acc + item_ranges(a, f));
                }
            },
        }
    }
}

/// The code of a class does not depend on the flags `g` and `y`.
pub proof fn lemma_class_code_same(s: Seq<char>, f: Flags, g: Flags, i: int)
    requires
        same_syntax(f, g),
    ensures
        class_code(s, f, i) == class_code(s, g, i),
{
    reveal(class_code);
    let negated = i + 1 < s.len() && s[i + 1] == '^';
    let from = if negated {
        i + 2
    } else {
        i + 1
    };
    lemma_class_items_same(s, f, g, i, from, Seq::empty());
}

} // verus!
