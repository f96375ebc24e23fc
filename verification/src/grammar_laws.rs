//! What holds of the grammar: reading a pattern stays within the pattern
//! and moves forward, the code it gives is closed, and the flags `g` and
//! `y` have no part in it.

use vstd::prelude::*;
use crate::class::{
    class_code, error_within, is_set_letter, lemma_class_code_bounds, lemma_class_code_closed,
    lemma_class_code_same, lemma_set_ranges, same_syntax, set_ranges,
};
use crate::code::{
    either_code, extra, iteration, lemma_repeat_len, repeat_len, MAX_CODE_LEN,
};
use crate::error::CompileError;
use crate::escape::{
    char_escape, is_digit, lemma_char_escape_bounds, lemma_number_bounds, number,
};
use crate::flags::Flags;
use crate::grammar::{
    alternative, atom, braces, counts_ok, disjunction, escape_atom, quantifier, term, with_ref,
    Counts, Parsed, MAX_COUNT,
};
use crate::program::Inst;
use crate::valid::{
    closed, lemma_closed_class, lemma_closed_concat, lemma_closed_directed, lemma_closed_either,
    lemma_closed_empty, lemma_closed_group, lemma_closed_grows, lemma_closed_look,
    lemma_closed_repeat, lemma_closed_single, Limits,
};

verus! {

/// Braces end in the pattern, behind where they began.
pub proof fn lemma_braces_bounds(s: Seq<char>, j: int)
    requires
        0 <= j < s.len(),
    ensures
        braces(s, j) matches Some((_, _, next)) ==> j < next <= s.len(),
{
    lemma_number_bounds(s, j + 1, 0);
    let (a, k) = number(s, j + 1, 0);
    if j + 1 < k < s.len() && s[k] == ',' {
        lemma_number_bounds(s, k + 1, 0);
    }
}

/// A quantifier ends in the pattern, behind where it began; an error names
/// where it began.
pub proof fn lemma_quantifier_bounds(s: Seq<char>, unicode: bool, j: int)
    requires
        0 <= j <= s.len(),
    ensures
        quantifier(s, unicode, j) matches Ok(Some((_, next))) ==> j < next <= s.len(),
        quantifier(s, unicode, j) matches Err(e) ==> error_within(e, s.len() as int),
{
    reveal(quantifier);
    if j < s.len() {
        lemma_braces_bounds(s, j);
    }
}

/// The item of an escape ends in the pattern, behind its backslash; an
/// error names the backslash.
pub proof fn lemma_escape_atom_bounds(s: Seq<char>, f: Flags, i: int, n: Counts, back: bool)
    requires
        0 <= i < s.len(),
        n.max_ref_at <= s.len(),
    ensures
        within(escape_atom(s, f, i, n, back), i + 1, s.len() as int),
{
    reveal(escape_atom);
    if i + 1 < s.len() {
        lemma_number_bounds(s, i + 1, 0);
        lemma_char_escape_bounds(s, f.unicode, false, i + 1);
    }
}

/// What holds of whatever reading a part of a pattern from `i` on gives:
/// the part ends in the pattern and not before `i`, and an error names a
/// character of the pattern or its end.
pub open spec fn within(r: Result<Parsed, CompileError>, i: int, len: int) -> bool {
    match r {
        Ok(p) => i <= p.next <= len && p.counts.max_ref_at <= len,
        Err(e) => error_within(e, len),
    }
}

/// The alternatives read from `i` on end in the pattern and not before
/// `i`.
pub proof fn lemma_disjunction_bounds(
    s: Seq<char>,
    f: Flags,
    i: int,
    n: Counts,
    back: bool,
    depth: nat,
    acc: Option<Seq<Inst>>,
)
    requires
        0 <= i <= s.len(),
        n.max_ref_at <= s.len(),
    ensures
        within(disjunction(s, f, i, n, back, depth, acc), i, s.len() as int),
    decreases s.len() - i, 3int,
{
    lemma_alternative_bounds(s, f, i, n, back, depth, Seq::empty());
    match alternative(s, f, i, n, back, depth, Seq::empty()) {
        Err(e) => {},
        Ok(a) => {
            let code = match acc {
                None => a.code,
                Some(before) => either_code(before, a.code),
            };
            if code.len() <= MAX_CODE_LEN && i <= a.next < s.len() && s[a.next] == '|' {
                lemma_disjunction_bounds(s, f, a.next + 1, a.counts, back, depth, Some(code));
            }
        },
    }
}

/// The terms read from `i` on end in the pattern and not before `i`.
pub proof fn lemma_alternative_bounds(
    s: Seq<char>,
    f: Flags,
    i: int,
    n: Counts,
    back: bool,
    depth: nat,
    acc: Seq<Inst>,
)
    requires
        0 <= i <= s.len(),
        n.max_ref_at <= s.len(),
    ensures
        within(alternative(s, f, i, n, back, depth, acc), i, s.len() as int),
    decreases s.len() - i, 2int,
{
    if i < s.len() && s[i] != '|' && s[i] != ')' {
        lemma_term_bounds(s, f, i, n, back, depth);
        match term(s, f, i, n, back, depth) {
            Err(e) => {},
            Ok(t) => {
                let code = if back {
                    t.code + acc
                } else {
                    acc + t.code
                };
                if code.len() <= MAX_CODE_LEN && i < t.next <= s.len() {
                    lemma_alternative_bounds(s, f, t.next, t.counts, back, depth, code);
                }
            },
        }
    }
}

/// A term ends in the pattern, behind where it began.
pub proof fn lemma_term_bounds(s: Seq<char>, f: Flags, i: int, n: Counts, back: bool, depth: nat)
    requires
        0 <= i < s.len(),
        n.max_ref_at <= s.len(),
    ensures
        within(term(s, f, i, n, back, depth), i + 1, s.len() as int),
    decreases s.len() - i, 1int,
{
    lemma_atom_bounds(s, f, i, n, back, depth);
    match atom(s, f, i, n, back, depth) {
        Err(e) => {},
        Ok(a) => {
            lemma_quantifier_bounds(s, f.unicode, a.next);
        },
    }
}

/// An item ends in the pattern, behind where it began.
pub proof fn lemma_atom_bounds(s: Seq<char>, f: Flags, i: int, n: Counts, back: bool, depth: nat)
    requires
        0 <= i < s.len(),
        n.max_ref_at <= s.len(),
    ensures
        within(atom(s, f, i, n, back, depth), i + 1, s.len() as int),
    decreases s.len() - i, 0int,
{
    if s[i] == '[' {
        lemma_class_code_bounds(s, f, i);
    } else if s[i] == '\\' {
        lemma_escape_atom_bounds(s, f, i, n, back);
    } else if s[i] == '(' && depth > 0 {
        let deeper = (depth - 1) as nat;
        if !(i + 1 < s.len() && s[i + 1] == '?') {
            if n.groups < MAX_COUNT {
                let inside = Counts { groups: (n.groups + 1) as usize, ..n };
                lemma_disjunction_bounds(s, f, i + 1, inside, back, deeper, None);
            }
        } else if i + 2 < s.len() && s[i + 2] == ':' {
            lemma_disjunction_bounds(s, f, i + 3, n, back, deeper, None);
        } else if i + 2 < s.len() && (s[i + 2] == '=' || s[i + 2] == '!') {
            lemma_disjunction_bounds(s, f, i + 3, n, false, deeper, None);
        } else if i + 3 < s.len() && s[i + 2] == '<' && (s[i + 3] == '=' || s[i + 3] == '!') {
            lemma_disjunction_bounds(s, f, i + 4, n, true, deeper, None);
        }
    }
}

/// The limits that the counts `n` set to instructions.
pub open spec fn limits_of(n: Counts) -> Limits {
    Limits { groups: n.groups as int, marks: n.marks as int, refs: n.max_ref as int }
}

/// Whether the counts `m` are no less than the counts `n`.
pub open spec fn counts_within(n: Counts, m: Counts) -> bool {
    n.groups <= m.groups && n.marks <= m.marks && n.max_ref <= m.max_ref
}

/// What holds of whatever reading a part of a pattern gives after the
/// counts stood at `n`: its code is closed and not too long, and its
/// counts are within the limits of the compiler and no less than `n`.
pub open spec fn well_made(r: Result<Parsed, CompileError>, n: Counts) -> bool {
    r matches Ok(p) ==> {
        &&& closed(p.code, limits_of(p.counts))
        &&& p.code.len() <= MAX_CODE_LEN
        &&& counts_ok(p.counts)
        &&& counts_within(n, p.counts)
    }
}

/// The item of an escape is well made.
pub proof fn lemma_escape_atom_closed(s: Seq<char>, f: Flags, i: int, n: Counts, back: bool)
    requires
        0 <= i < s.len(),
        counts_ok(n),
    ensures
        well_made(escape_atom(s, f, i, n, back), n),
{
    reveal(escape_atom);
    let l = limits_of(n);
    if i + 1 < s.len() {
        if is_set_letter(s[i + 1]) {
            let ranges = set_ranges(s[i + 1], f);
            lemma_set_ranges(s[i + 1], f);
            lemma_closed_class(false, ranges, l);
            lemma_closed_directed(
                seq![Inst::Class { negated: false, count: ranges.len() as u32 }] + ranges,
                back,
                l,
            );
        } else if s[i + 1] == 'b' {
            lemma_closed_single(Inst::WordBoundary, l);
        } else if s[i + 1] == 'B' {
            lemma_closed_single(Inst::NotWordBoundary, l);
        } else if is_digit(s[i + 1]) && s[i + 1] != '0' {
            lemma_number_bounds(s, i + 1, 0);
            let (v, next) = number(s, i + 1, 0);
            let m = with_ref(n, v as usize, i);
            lemma_closed_single(Inst::BackRef(v as u32), limits_of(m));
            lemma_closed_single(Inst::BackRefBack(v as u32), limits_of(m));
        } else {
            match char_escape(s, f.unicode, false, i + 1) {
                Ok((v, next)) => {
                    lemma_closed_single(Inst::Char(v), l);
                    lemma_closed_directed(seq![Inst::Char(v)], back, l);
                },
                Err(e) => {},
            }
        }
    }
}

/// The alternatives read from `i` on are well made, if those read before
/// are.
pub proof fn lemma_disjunction_closed(
    s: Seq<char>,
    f: Flags,
    i: int,
    n: Counts,
    back: bool,
    depth: nat,
    acc: Option<Seq<Inst>>,
)
    requires
        0 <= i <= s.len(),
        counts_ok(n),
        acc matches Some(before) ==> closed(before, limits_of(n)) && before.len() <= MAX_CODE_LEN,
    ensures
        well_made(disjunction(s, f, i, n, back, depth, acc), n),
    decreases s.len() - i, 3int,
{
    lemma_closed_empty(limits_of(n));
    lemma_alternative_closed(s, f, i, n, back, depth, Seq::empty());
    match alternative(s, f, i, n, back, depth, Seq::empty()) {
        Err(e) => {},
        Ok(a) => {
            let l = limits_of(a.counts);
            let code = match acc {
                None => a.code,
                Some(before) => either_code(before, a.code),
            };
            match acc {
                None => {},
                Some(before) => {
                    lemma_closed_grows(before, limits_of(n), l);
                    lemma_closed_either(before, a.code, l);
                },
            }
            if code.len() <= MAX_CODE_LEN && i <= a.next < s.len() && s[a.next] == '|' {
                lemma_disjunction_closed(s, f, a.next + 1, a.counts, back, depth, Some(code));
            }
        },
    }
}

/// The terms read from `i` on are well made, if those read before are.
pub proof fn lemma_alternative_closed(
    s: Seq<char>,
    f: Flags,
    i: int,
    n: Counts,
    back: bool,
    depth: nat,
    acc: Seq<Inst>,
)
    requires
        0 <= i <= s.len(),
        counts_ok(n),
        closed(acc, limits_of(n)),
        acc.len() <= MAX_CODE_LEN,
    ensures
        well_made(alternative(s, f, i, n, back, depth, acc), n),
    decreases s.len() - i, 2int,
{
    if i < s.len() && s[i] != '|' && s[i] != ')' {
        lemma_term_closed(s, f, i, n, back, depth);
        match term(s, f, i, n, back, depth) {
            Err(e) => {},
            Ok(t) => {
                let l = limits_of(t.counts);
                let code = if back {
                    t.code + acc
                } else {
                    acc + t.code
                };
                lemma_closed_grows(acc, limits_of(n), l);
                if back {
                    lemma_closed_concat(t.code, acc, l);
                } else {
                    lemma_closed_concat(acc, t.code, l);
                }
                if code.len() <= MAX_CODE_LEN && i < t.next <= s.len() {
                    lemma_alternative_closed(s, f, t.next, t.counts, back, depth, code);
                }
            },
        }
    }
}

/// A term is well made.
pub proof fn lemma_term_closed(s: Seq<char>, f: Flags, i: int, n: Counts, back: bool, depth: nat)
    requires
        0 <= i < s.len(),
        counts_ok(n),
    ensures
        well_made(term(s, f, i, n, back, depth), n),
    decreases s.len() - i, 1int,
{
    lemma_atom_closed(s, f, i, n, back, depth);
    match atom(s, f, i, n, back, depth) {
        Err(e) => {},
        Ok(a) => match quantifier(s, f.unicode, a.next) {
            Err(e) => {},
            Ok(None) => {},
            Ok(Some((q, next))) => {
                let lo = (2 * n.groups) as u32;
                let hi = (2 * a.counts.groups) as u32;
                if a.repeatable && a.counts.marks < MAX_COUNT && repeat_len(
                    a.code.len() as int,
                    q,
                    lo,
                    hi,
                ) <= MAX_CODE_LEN {
                    let m = Counts { marks: (a.counts.marks + 1) as usize, ..a.counts };
                    let mark = a.counts.marks as u32;
                    lemma_closed_grows(a.code, limits_of(a.counts), limits_of(m));
                    lemma_repeat_len(a.code, q, lo, hi, mark);
                    let itl = iteration(a.code, lo, hi).len() as int;
                    assert(itl == if lo < hi {
                        a.code.len() as int + 1
                    } else {
                        a.code.len() as int
                    });
                    assert(extra(q) * (itl + 3) <= MAX_CODE_LEN) by {
                        reveal(repeat_len);
                        assert(q.min * itl >= 0) by (nonlinear_arith)
                            requires
                                q.min >= 0,
                                itl >= 0,
                        ;
                        match q.max {
                            None => {
                                assert(extra(q) == 0);
                                assert(0 * (itl + 3) == 0) by (nonlinear_arith);
                            },
                            Some(_) => {
                                assert(repeat_len(a.code.len() as int, q, lo, hi) == q.min * itl
                                    + extra(q) * (itl + 3));
                            },
                        }
                    }
                    lemma_closed_repeat(a.code, q, lo, hi, mark, limits_of(m));
                }
            },
        },
    }
}

/// An item is well made.
pub proof fn lemma_atom_closed(s: Seq<char>, f: Flags, i: int, n: Counts, back: bool, depth: nat)
    requires
        0 <= i < s.len(),
        counts_ok(n),
    ensures
        well_made(atom(s, f, i, n, back, depth), n),
    decreases s.len() - i, 0int,
{
    let l = limits_of(n);
    if s[i] == '^' {
        lemma_closed_single(Inst::StartLine, l);
        lemma_closed_single(Inst::Start, l);
    } else if s[i] == '$' {
        lemma_closed_single(Inst::EndLine, l);
        lemma_closed_single(Inst::End, l);
    } else if s[i] == '.' {
        lemma_closed_single(Inst::AnyAll, l);
        lemma_closed_single(Inst::Any, l);
        lemma_closed_directed(seq![Inst::AnyAll], back, l);
        lemma_closed_directed(seq![Inst::Any], back, l);
    } else if s[i] == '[' {
        lemma_class_code_closed(s, f, i, l);
        match class_code(s, f, i) {
            Ok((code, next)) => {
                lemma_closed_directed(code, back, l);
            },
            Err(e) => {},
        }
    } else if s[i] == '\\' {
        lemma_escape_atom_closed(s, f, i, n, back);
    } else if s[i] == '*' || s[i] == '+' || s[i] == '?' || s[i] == ')' {
    } else if s[i] == '{' && (f.unicode || braces(s, i) is Some) {
    } else if (s[i] == '}' || s[i] == ']') && f.unicode {
    } else if s[i] != '(' {
        lemma_closed_single(Inst::Char(s[i] as u32), l);
        lemma_closed_directed(seq![Inst::Char(s[i] as u32)], back, l);
    } else if depth > 0 {
        let deeper = (depth - 1) as nat;
        if !(i + 1 < s.len() && s[i + 1] == '?') {
            if n.groups < MAX_COUNT {
                let inside = Counts { groups: (n.groups + 1) as usize, ..n };
                lemma_disjunction_closed(s, f, i + 1, inside, back, deeper, None);
                match disjunction(s, f, i + 1, inside, back, deeper, None) {
                    Err(e) => {},
                    Ok(inner) => {
                        lemma_closed_group(
                            n.groups as int,
                            inner.code,
                            back,
                            limits_of(inner.counts),
                        );
                    },
                }
            }
        } else if i + 2 < s.len() && s[i + 2] == ':' {
            lemma_disjunction_closed(s, f, i + 3, n, back, deeper, None);
        } else if i + 2 < s.len() && (s[i + 2] == '=' || s[i + 2] == '!') {
            lemma_disjunction_closed(s, f, i + 3, n, false, deeper, None);
            match disjunction(s, f, i + 3, n, false, deeper, None) {
                Err(e) => {},
                Ok(inner) => {
                    lemma_closed_look(s[i + 2] == '!', inner.code, limits_of(inner.counts));
                },
            }
        } else if i + 3 < s.len() && s[i + 2] == '<' && (s[i + 3] == '=' || s[i + 3] == '!') {
            lemma_disjunction_closed(s, f, i + 4, n, true, deeper, None);
            match disjunction(s, f, i + 4, n, true, deeper, None) {
                Err(e) => {},
                Ok(inner) => {
                    lemma_closed_look(s[i + 3] == '!', inner.code, limits_of(inner.counts));
                },
            }
        }
    }
}

/// The alternatives of a pattern do not depend on the flags `g` and `y`.
pub proof fn lemma_disjunction_same(
    s: Seq<char>,
    f: Flags,
    g: Flags,
    i: int,
    n: Counts,
    back: bool,
    depth: nat,
    acc: Option<Seq<Inst>>,
)
    requires
        same_syntax(f, g),
    ensures
        disjunction(s, f, i, n, back, depth, acc) == disjunction(s, g, i, n, back, depth, acc),
    decreases s.len() - i, 3int,
{
    if 0 <= i <= s.len() {
        lemma_alternative_same(s, f, g, i, n, back, depth, Seq::empty());
        match alternative(s, f, i, n, back, depth, Seq::empty()) {
            Err(e) => {},
            Ok(a) => {
                let code = match acc {
                    None => a.code,
                    Some(before) => either_code(before, a.code),
                };
                if code.len() <= MAX_CODE_LEN && i <= a.next < s.len() && s[a.next] == '|' {
                    lemma_disjunction_same(s, f, g, a.next + 1, a.counts, back, depth, Some(code));
                }
            },
        }
    }
}

/// The terms of a pattern do not depend on the flags `g` and `y`.
pub proof fn lemma_alternative_same(
    s: Seq<char>,
    f: Flags,
    g: Flags,
    i: int,
    n: Counts,
    back: bool,
    depth: nat,
    acc: Seq<Inst>,
)
    requires
        same_syntax(f, g),
    ensures
        alternative(s, f, i, n, back, depth, acc) == alternative(s, g, i, n, back, depth, acc),
    decreases s.len() - i, 2int,
{
    if 0 <= i < s.len() && s[i] != '|' && s[i] != ')' {
        lemma_term_same(s, f, g, i, n, back, depth);
        match term(s, f, i, n, back, depth) {
            Err(e) => {},
            Ok(t) => {
                let code = if back {
                    t.code + acc
                } else {
                    acc + t.code
                };
                if code.len() <= MAX_CODE_LEN && i < t.next <= s.len() {
                    lemma_alternative_same(s, f, g, t.next, t.counts, back, depth, code);
                }
            },
        }
    }
}

/// A term does not depend on the flags `g` and `y`.
pub proof fn lemma_term_same(
    s: Seq<char>,
    f: Flags,
    g: Flags,
    i: int,
    n: Counts,
    back: bool,
    depth: nat,
)
    requires
        same_syntax(f, g),
    ensures
        term(s, f, i, n, back, depth) == term(s, g, i, n, back, depth),
    decreases s.len() - i, 1int,
{
    if 0 <= i < s.len() {
        lemma_atom_same(s, f, g, i, n, back, depth);
    }
}

/// An item does not depend on the flags `g` and `y`.
pub proof fn lemma_atom_same(
    s: Seq<char>,
    f: Flags,
    g: Flags,
    i: int,
    n: Counts,
    back: bool,
    depth: nat,
)
    requires
        same_syntax(f, g),
    ensures
        atom(s, f, i, n, back, depth) == atom(s, g, i, n, back, depth),
    decreases s.len() - i, 0int,
{
    if 0 <= i < s.len() {
        if s[i] == '[' {
            lemma_class_code_same(s, f, g, i);
        } else if s[i] == '\\' {
            reveal(escape_atom);
            reveal(set_ranges);
        } else if s[i] == '(' && depth > 0 {
            let deeper = (depth - 1) as nat;
            if !(i + 1 < s.len() && s[i + 1] == '?') {
                if n.groups < MAX_COUNT {
                    let inside = Counts { groups: (n.groups + 1) as usize, ..n };
                    lemma_disjunction_same(s, f, g, i + 1, inside, back, deeper, None);
                }
            } else if i + 2 < s.len() && s[i + 2] == ':' {
                lemma_disjunction_same(s, f, g, i + 3, n, back, deeper, None);
            } else if i + 2 < s.len() && (s[i + 2] == '=' || s[i + 2] == '!') {
                lemma_disjunction_same(s, f, g, i + 3, n, false, deeper, None);
            } else if i + 3 < s.len() && s[i + 2] == '<' && (s[i + 3] == '=' || s[i + 3] == '!') {
                lemma_disjunction_same(s, f, g, i + 4, n, true, deeper, None);
            }
        }
    }
}

} // verus!
