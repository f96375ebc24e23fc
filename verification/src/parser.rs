//! Reading a pattern: the functions that compute what the grammar says.

use vstd::prelude::*;
use crate::class::{is_set_letter, push_set, read_class, set_ranges};
use crate::code::{
    append_all, make_directed, make_either, make_group, make_look, make_repeat, Quantifier,
    MAX_CODE_LEN,
};
use crate::error::{CompileError, SyntaxKind};
use crate::escape::{
    is_digit, read_char_escape, read_number, MAX_NUMBER, MAX_PATTERN_LEN,
};
use crate::flags::Flags;
use crate::grammar::{
    alternative, atom, braces, counts_ok, disjunction, escape_atom, group_end, quantifier, term,
    with_laziness, Counts, Parsed, MAX_COUNT,
};
use crate::program::Inst;

verus! {

/// A part of a pattern, compiled.
pub struct Piece {
    /// The instructions for the part.
    pub code: Vec<Inst>,
    /// The index of the first character behind the part.
    pub next: usize,
    /// What has been counted up to there.
    pub counts: Counts,
    /// Whether a quantifier may follow.
    pub repeatable: bool,
}

impl View for Piece {
    type V = Parsed;

    open spec fn view(&self) -> Parsed {
        Parsed {
            code: self.code@,
            next: self.next as int,
            counts: self.counts,
            repeatable: self.repeatable,
        }
    }
}

/// The mathematical value of what reading a part of a pattern gave.
pub open spec fn piece_view(r: Result<Piece, CompileError>) -> Result<Parsed, CompileError> {
    match r {
        Ok(p) => Ok(p@),
        Err(e) => Err(e),
    }
}

/// The mathematical value of the code of the alternatives read so far.
pub open spec fn code_view(acc: Option<Vec<Inst>>) -> Option<Seq<Inst>> {
    match acc {
        Some(code) => Some(code@),
        None => None,
    }
}

/// Whether `p`, read from `i` on in a pattern of `len` characters after
/// the counts stood at `n`, is within the limits of the compiler.
pub open spec fn piece_ok(p: Piece, len: int, i: int, n: Counts) -> bool {
    &&& i <= p.next <= len
    &&& p.code.len() <= MAX_CODE_LEN
    &&& counts_ok(p.counts)
    &&& n.groups <= p.counts.groups
}

/// The mathematical value of what reading a quantifier gave.
pub open spec fn quantifier_view(r: Result<Option<(Quantifier, usize)>, CompileError>) -> Result<
    Option<(Quantifier, int)>,
    CompileError,
> {
    match r {
        Ok(Some((q, next))) => Ok(Some((q, next as int))),
        Ok(None) => Ok(None),
        Err(e) => Err(e),
    }
}

/// Reads the bounds that braces at `j` give.
fn read_braces(s: &Vec<char>, j: usize) -> (r: Option<(usize, Option<usize>, usize)>)
    requires
        j < s.len() <= MAX_PATTERN_LEN,
    ensures
        match r {
            Some((min, max, next)) => braces(s@, j as int) == Some((min, max, next as int)) && j
                < next <= s.len() && min <= MAX_NUMBER && (max matches Some(m) ==> m
                <= MAX_NUMBER),
            None => braces(s@, j as int) is None,
        },
{
    let (a, k) = read_number(s, j + 1);
    if !(j + 1 < k && k < s.len()) {
        None
    } else if s[k] == '}' {
        Some((a, Some(a), k + 1))
    } else if s[k] == ',' {
        if k + 1 < s.len() && s[k + 1] == '}' {
            Some((a, None, k + 2))
        } else {
            let (b, m) = read_number(s, k + 1);
            if k + 1 < m && m < s.len() && s[m] == '}' {
                Some((a, Some(b), m + 1))
            } else {
                None
            }
        }
    } else {
        None
    }
}

/// Reads the `?` that makes a quantifier lazy, if it stands at `next`.
fn read_laziness(s: &Vec<char>, min: usize, max: Option<usize>, next: usize) -> (r: (
    Quantifier,
    usize,
))
    requires
        next <= s.len() <= MAX_PATTERN_LEN,
    ensures
        with_laziness(s@, min, max, next as int) == (r.0, r.1 as int),
        next <= r.1 <= s.len(),
        r.0.min == min,
        r.0.max == max,
{
    if next < s.len() && s[next] == '?' {
        (Quantifier { min, max, greedy: false }, next + 1)
    } else {
        (Quantifier { min, max, greedy: true }, next)
    }
}

/// Reads the quantifier written at `j`, if one is.
fn read_quantifier(s: &Vec<char>, unicode: bool, j: usize) -> (r: Result<
    Option<(Quantifier, usize)>,
    CompileError,
>)
    requires
        j <= s.len() <= MAX_PATTERN_LEN,
    ensures
        quantifier_view(r) == quantifier(s@, unicode, j as int),
        r matches Ok(Some((q, next))) ==> j < next <= s.len() && q.min <= MAX_NUMBER && (
        q.max matches Some(m) ==> q.min <= m <= MAX_NUMBER),
{
    reveal(quantifier);
    if j >= s.len() {
        Ok(None)
    } else if s[j] == '*' {
        Ok(Some(read_laziness(s, 0, None, j + 1)))
    } else if s[j] == '+' {
        Ok(Some(read_laziness(s, 1, None, j + 1)))
    } else if s[j] == '?' {
        Ok(Some(read_laziness(s, 0, Some(1), j + 1)))
    } else if s[j] == '{' {
        match read_braces(s, j) {
            Some((min, max, next)) => {
                let out_of_order = match max {
                    Some(m) => m < min,
                    None => false,
                };
                if out_of_order {
                    Err(CompileError::Syntax(j, SyntaxKind::QuantifierOutOfOrder))
                } else {
                    Ok(Some(read_laziness(s, min, max, next)))
                }
            },
            None => if unicode {
                Err(CompileError::Syntax(j, SyntaxKind::LoneBracket))
            } else {
                Ok(None)
            },
        }
    } else {
        Ok(None)
    }
}

/// Reads the item that the escape at `i` stands for.
fn read_escape_atom(s: &Vec<char>, f: Flags, i: usize, n: Counts, back: bool) -> (r: Result<
    Piece,
    CompileError,
>)
    requires
        i < s.len() <= MAX_PATTERN_LEN,
        counts_ok(n),
    ensures
        piece_view(r) == escape_atom(s@, f, i as int, n, back),
        r matches Ok(p) ==> piece_ok(p, s.len() as int, i + 1, n),
{
    reveal(escape_atom);
    if i + 1 >= s.len() {
        return Err(CompileError::Syntax(i, SyntaxKind::InvalidEscape));
    }
    let c = s[i + 1];
    if is_set_letter(c) {
        let mut code: Vec<Inst> = Vec::new();
        push_set(&mut code, c, f);
        let count = code.len() as u32;
        code.insert(0, Inst::Class { negated: false, count });
        assert(code@ =~= seq![Inst::Class { negated: false, count }] + set_ranges(c, f));
        Ok(Piece { code: make_directed(code, back), next: i + 2, counts: n, repeatable: true })
    } else if c == 'b' {
        let mut code: Vec<Inst> = Vec::new();
        code.push(Inst::WordBoundary);
        assert(code@ =~= seq![Inst::WordBoundary]);
        Ok(Piece { code, next: i + 2, counts: n, repeatable: false })
    } else if c == 'B' {
        let mut code: Vec<Inst> = Vec::new();
        code.push(Inst::NotWordBoundary);
        assert(code@ =~= seq![Inst::NotWordBoundary]);
        Ok(Piece { code, next: i + 2, counts: n, repeatable: false })
    } else if is_digit(c) && c != '0' && (f.unicode || read_number(s, i + 1).0 <= n.limit) {
        let (v, next) = read_number(s, i + 1);
        let mut code: Vec<Inst> = Vec::new();
        if back {
            code.push(Inst::BackRefBack(v as u32));
            assert(code@ =~= seq![Inst::BackRefBack(v as u32)]);
        } else {
            code.push(Inst::BackRef(v as u32));
            assert(code@ =~= seq![Inst::BackRef(v as u32)]);
        }
        let counts = if v > n.max_ref {
            Counts {
                groups: n.groups,
                marks: n.marks,
                max_ref: v,
                max_ref_at: i,
                limit: n.limit,
            }
        } else {
            n
        };
        Ok(Piece { code, next, counts, repeatable: true })
    } else {
        match read_char_escape(s, f.unicode, false, i + 1) {
            Ok((v, next)) => {
                let mut code: Vec<Inst> = Vec::new();
                code.push(Inst::Char(v));
                assert(code@ =~= seq![Inst::Char(v)]);
                Ok(Piece { code: make_directed(code, back), next, counts: n, repeatable: true })
            },
            Err(e) => Err(e),
        }
    }
}

/// Reads the `)` that must stand at `next`, behind the content of a group
/// that began at `open`.
fn close(
    s: &Vec<char>,
    open: usize,
    next: usize,
    counts: Counts,
    code: Vec<Inst>,
    repeatable: bool,
    Ghost(inner): Ghost<Parsed>,
) -> (r: Result<Piece, CompileError>)
    requires
        open < next <= s.len() <= MAX_PATTERN_LEN,
        inner.next == next,
        inner.counts == counts,
    ensures
        piece_view(r) == group_end(s@, open as int, inner, code@, repeatable),
        r matches Ok(p) ==> open < p.next <= s.len() && p.code.len() <= MAX_CODE_LEN && p.counts
            == counts,
{
    if !(next < s.len() && s[next] == ')') {
        Err(CompileError::Syntax(open, SyntaxKind::UnterminatedGroup))
    } else if code.len() > MAX_CODE_LEN {
        Err(CompileError::Syntax(open, SyntaxKind::TooLarge))
    } else {
        Ok(Piece { code, next: next + 1, counts, repeatable })
    }
}

/// One instruction as code.
fn single(inst: Inst) -> (r: Vec<Inst>)
    ensures
        r@ == seq![inst],
{
    let mut code: Vec<Inst> = Vec::new();
    code.push(inst);
    assert(code@ =~= seq![inst]);
    code
}

/// Reads the alternatives written from `i` on.
pub(crate) fn read_disjunction(
    s: &Vec<char>,
    f: Flags,
    i: usize,
    n: Counts,
    back: bool,
    depth: usize,
) -> (r: Result<Piece, CompileError>)
    requires
        i <= s.len() <= MAX_PATTERN_LEN,
        counts_ok(n),
    ensures
        piece_view(r) == disjunction(s@, f, i as int, n, back, depth as nat, None),
        r matches Ok(p) ==> piece_ok(p, s.len() as int, i as int, n),
    decreases s.len() - i, 3int,
{
    let mut acc: Option<Vec<Inst>> = None;
    let mut j: usize = i;
    let mut m: Counts = n;
    loop
        invariant
            i <= j <= s.len() <= MAX_PATTERN_LEN,
            counts_ok(m),
            n.groups <= m.groups,
            acc matches Some(before) ==> before.len() <= MAX_CODE_LEN,
            disjunction(s@, f, i as int, n, back, depth as nat, None) == disjunction(
                s@,
                f,
                j as int,
                m,
                back,
                depth as nat,
                code_view(acc),
            ),
        decreases s.len() - j,
    {
        let a = match read_alternative(s, f, j, m, back, depth) {
            Ok(a) => a,
            Err(e) => {
                return Err(e);
            },
        };
        let code = match acc {
            None => a.code,
            Some(before) => make_either(&before, &a.code),
        };
        if code.len() > MAX_CODE_LEN {
            return Err(CompileError::Syntax(j, SyntaxKind::TooLarge));
        }
        if a.next < s.len() && s[a.next] == '|' {
            j = a.next + 1;
            m = a.counts;
            acc = Some(code);
        } else {
            return Ok(Piece { code, next: a.next, counts: a.counts, repeatable: false });
        }
    }
}

/// Reads the terms written from `i` on.
pub(crate) fn read_alternative(
    s: &Vec<char>,
    f: Flags,
    i: usize,
    n: Counts,
    back: bool,
    depth: usize,
) -> (r: Result<Piece, CompileError>)
    requires
        i <= s.len() <= MAX_PATTERN_LEN,
        counts_ok(n),
    ensures
        piece_view(r) == alternative(s@, f, i as int, n, back, depth as nat, Seq::empty()),
        r matches Ok(p) ==> piece_ok(p, s.len() as int, i as int, n),
    decreases s.len() - i, 2int,
{
    let mut acc: Vec<Inst> = Vec::new();
    let mut j: usize = i;
    let mut m: Counts = n;
    loop
        invariant
            i <= j <= s.len() <= MAX_PATTERN_LEN,
            counts_ok(m),
            n.groups <= m.groups,
            acc.len() <= MAX_CODE_LEN,
            alternative(s@, f, i as int, n, back, depth as nat, Seq::empty()) == alternative(
                s@,
                f,
                j as int,
                m,
                back,
                depth as nat,
                acc@,
            ),
        decreases s.len() - j,
    {
        if j >= s.len() || s[j] == '|' || s[j] == ')' {
            return Ok(Piece { code: acc, next: j, counts: m, repeatable: false });
        }
        let t = match read_term(s, f, j, m, back, depth) {
            Ok(t) => t,
            Err(e) => {
                return Err(e);
            },
        };
        if t.code.len() > MAX_CODE_LEN - acc.len() {
            return Err(CompileError::Syntax(j, SyntaxKind::TooLarge));
        }
        if back {
            let mut code = t.code;
            append_all(&mut code, &acc);
            acc = code;
        } else {
            append_all(&mut acc, &t.code);
        }
        j = t.next;
        m = t.counts;
    }
}

/// Reads the term written at `i`.
pub(crate) fn read_term(
    s: &Vec<char>,
    f: Flags,
    i: usize,
    n: Counts,
    back: bool,
    depth: usize,
) -> (r: Result<Piece, CompileError>)
    requires
        i < s.len() <= MAX_PATTERN_LEN,
        counts_ok(n),
    ensures
        piece_view(r) == term(s@, f, i as int, n, back, depth as nat),
        r matches Ok(p) ==> piece_ok(p, s.len() as int, i + 1, n),
    decreases s.len() - i, 1int,
{
    let a = match read_atom(s, f, i, n, back, depth) {
        Ok(a) => a,
        Err(e) => {
            return Err(e);
        },
    };
    match read_quantifier(s, f.unicode, a.next) {
        Err(e) => Err(e),
        Ok(None) => Ok(a),
        Ok(Some((q, next))) => {
            if !a.repeatable {
                return Err(CompileError::Syntax(a.next, SyntaxKind::NothingToRepeat));
            }
            if a.counts.marks >= MAX_COUNT {
                return Err(CompileError::Syntax(i, SyntaxKind::TooLarge));
            }
            let lo = (2 * n.groups) as u32;
            let hi = (2 * a.counts.groups) as u32;
            match make_repeat(&a.code, q, lo, hi, a.counts.marks as u32) {
                None => Err(CompileError::Syntax(i, SyntaxKind::TooLarge)),
                Some(code) => Ok(
                    Piece {
                        code,
                        next,
                        counts: Counts {
                            groups: a.counts.groups,
                            marks: a.counts.marks + 1,
                            max_ref: a.counts.max_ref,
                            max_ref_at: a.counts.max_ref_at,
                            limit: a.counts.limit,
                        },
                        repeatable: false,
                    },
                ),
            }
        },
    }
}

/// Reads the item written at `i`.
pub(crate) fn read_atom(
    s: &Vec<char>,
    f: Flags,
    i: usize,
    n: Counts,
    back: bool,
    depth: usize,
) -> (r: Result<Piece, CompileError>)
    requires
        i < s.len() <= MAX_PATTERN_LEN,
        counts_ok(n),
    ensures
        piece_view(r) == atom(s@, f, i as int, n, back, depth as nat),
        r matches Ok(p) ==> piece_ok(p, s.len() as int, i + 1, n),
    decreases s.len() - i, 0int,
{
    let c = s[i];
    if c == '^' {
        let inst = if f.multi_line {
            Inst::StartLine
        } else {
            Inst::Start
        };
        Ok(Piece { code: single(inst), next: i + 1, counts: n, repeatable: false })
    } else if c == '$' {
        let inst = if f.multi_line {
            Inst::EndLine
        } else {
            Inst::End
        };
        Ok(Piece { code: single(inst), next: i + 1, counts: n, repeatable: false })
    } else if c == '.' {
        let inst = if f.dot_all {
            Inst::AnyAll
        } else {
            Inst::Any
        };
        Ok(
            Piece {
                code: make_directed(single(inst), back),
                next: i + 1,
                counts: n,
                repeatable: true,
            },
        )
    } else if c == '[' {
        match read_class(s, f, i) {
            Ok((code, next)) => Ok(
                Piece { code: make_directed(code, back), next, counts: n, repeatable: true },
            ),
            Err(e) => Err(e),
        }
    } else if c == '\\' {
        read_escape_atom(s, f, i, n, back)
    } else if c == '*' || c == '+' || c == '?' {
        Err(CompileError::Syntax(i, SyntaxKind::NothingToRepeat))
    } else if c == ')' {
        Err(CompileError::Syntax(i, SyntaxKind::UnmatchedParen))
    } else if c == '{' && (f.unicode || read_braces(s, i).is_some()) {
        Err(
            CompileError::Syntax(
                i,
                if f.unicode {
                    SyntaxKind::LoneBracket
                } else {
                    SyntaxKind::NothingToRepeat
                },
            ),
        )
    } else if (c == '}' || c == ']') && f.unicode {
        Err(CompileError::Syntax(i, SyntaxKind::LoneBracket))
    } else if c != '(' {
        Ok(
            Piece {
                code: make_directed(single(Inst::Char(c as u32)), back),
                next: i + 1,
                counts: n,
                repeatable: true,
            },
        )
    } else if depth == 0 {
        Err(CompileError::Syntax(i, SyntaxKind::TooDeep))
    } else if !(i + 1 < s.len() && s[i + 1] == '?') {
        if n.groups >= MAX_COUNT {
            return Err(CompileError::Syntax(i, SyntaxKind::TooLarge));
        }
        let inside = Counts {
            groups: n.groups + 1,
            marks: n.marks,
            max_ref: n.max_ref,
            max_ref_at: n.max_ref_at,
            limit: n.limit,
        };
        match read_disjunction(s, f, i + 1, inside, back, depth - 1) {
            Err(e) => Err(e),
            Ok(inner) => {
                let ghost whole = inner@;
                let next = inner.next;
                let counts = inner.counts;
                let code = make_group(n.groups, inner.code, back);
                close(s, i, next, counts, code, true, Ghost(whole))
            },
        }
    } else if i + 2 < s.len() && s[i + 2] == ':' {
        match read_disjunction(s, f, i + 3, n, back, depth - 1) {
            Err(e) => Err(e),
            Ok(inner) => {
                let ghost whole = inner@;
                let next = inner.next;
                let counts = inner.counts;
                close(s, i, next, counts, inner.code, true, Ghost(whole))
            },
        }
    } else if i + 2 < s.len() && (s[i + 2] == '=' || s[i + 2] == '!') {
        match read_disjunction(s, f, i + 3, n, false, depth - 1) {
            Err(e) => Err(e),
            Ok(inner) => {
                let ghost whole = inner@;
                let next = inner.next;
                let counts = inner.counts;
                close(
                    s,
                    i,
                    next,
                    counts,
                    make_look(s[i + 2] == '!', inner.code),
                    !f.unicode,
                    Ghost(whole),
                )
            },
        }
    } else if i + 3 < s.len() && s[i + 2] == '<' && (s[i + 3] == '=' || s[i + 3] == '!') {
        match read_disjunction(s, f, i + 4, n, true, depth - 1) {
            Err(e) => Err(e),
            Ok(inner) => {
                let ghost whole = inner@;
                let next = inner.next;
                let counts = inner.counts;
                let code = make_look(s[i + 3] == '!', inner.code);
                close(s, i, next, counts, code, false, Ghost(whole))
            },
        }
    } else {
        Err(CompileError::Syntax(i, SyntaxKind::InvalidGroup))
    }
}

} // verus!
