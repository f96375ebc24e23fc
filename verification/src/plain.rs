//! Patterns of plain characters, and what they find.
//!
//! A pattern in which no character has a meaning in the grammar is
//! compiled to one instruction for each of its characters, and a search
//! with its program finds the first place at which these characters stand
//! in the text.  Here this is proved from what compiling and running are
//! defined to be.

use vstd::prelude::*;
use crate::code::MAX_CODE_LEN;
use crate::compiler::{compile_spec, finished, first_counts, whole_pattern, NO_LIMIT};
use crate::error::{CompileError, ExecError};
use crate::escape::is_syntax_char;
use crate::flags::Flags;
use crate::folding::same_char;
use crate::grammar::{
    alternative, atom, disjunction, quantifier, term, Counts, Parsed, MAX_DEPTH,
};
use crate::program::{Inst, ProgramView};
use crate::search::{groups_of, search, unset, Groups};
use crate::vm::{advance, run, Cursor, Outcome};

verus! {

/// Whether no character of `s` has a meaning in the grammar.
pub open spec fn all_plain(s: Seq<char>) -> bool {
    forall|i: int| 0 <= i < s.len() ==> !is_syntax_char(#[trigger] s[i])
}

/// One instruction for each character of `s`.
pub open spec fn plain_code(s: Seq<char>) -> Seq<Inst> {
    Seq::new(s.len(), |i: int| Inst::Char(s[i] as u32))
}

/// The program of a pattern of plain characters.
pub open spec fn plain_program(s: Seq<char>, f: Flags) -> ProgramView {
    ProgramView { insts: plain_code(s).push(Inst::Accept), groups: 1, slots: 2, flags: f }
}

/// Whether the characters of `s` stand in `t` from offset `k` on, as the
/// flags `f` compare characters.
pub open spec fn occurs_at(s: Seq<char>, f: Flags, t: Seq<char>, k: int) -> bool {
    &&& 0 <= k
    &&& k + s.len() <= t.len()
    &&& forall|j: int| 0 <= j < s.len() ==> same_char(#[trigger] t[k + j] as u32, s[j] as u32, f)
}

/// The first offset from `start` on at which `s` stands in `t`; with the
/// sticky flag, `start` or none.
pub open spec fn first_occurrence(s: Seq<char>, f: Flags, t: Seq<char>, start: int) -> Option<int>
    decreases t.len() + 1 - start,
{
    if start > t.len() {
        None
    } else if occurs_at(s, f, t, start) {
        Some(start)
    } else if f.sticky {
        None
    } else {
        first_occurrence(s, f, t, start + 1)
    }
}

/// What a search for `s` in `t` is to find: the span of the first
/// occurrence, as the one group of the match.
pub open spec fn occurrence_found(s: Seq<char>, f: Flags, t: Seq<char>, start: int) -> Result<
    Option<Groups>,
    ExecError,
> {
    match first_occurrence(s, f, t, start) {
        Some(k) => Ok(Some(seq![Some((k as usize, (k + s.len()) as usize))])),
        None => Ok(None),
    }
}

/// The terms of a pattern of plain characters are its characters.
proof fn lemma_plain_alternative(
    s: Seq<char>,
    f: Flags,
    i: int,
    n: Counts,
    depth: nat,
    acc: Seq<Inst>,
)
    requires
        all_plain(s),
        0 <= i <= s.len(),
        acc.len() + (s.len() - i) <= MAX_CODE_LEN,
    ensures
        alternative(s, f, i, n, false, depth, acc) == Ok::<Parsed, CompileError>(
            Parsed {
                code: acc + plain_code(s.subrange(i, s.len() as int)),
                next: s.len() as int,
                counts: n,
                repeatable: false,
            },
        ),
    decreases s.len() - i,
{
    let rest = s.subrange(i, s.len() as int);
    if i == s.len() {
        assert(acc + plain_code(rest) =~= acc);
    } else {
        assert(!is_syntax_char(s[i]));
        let one = seq![Inst::Char(s[i] as u32)];
        assert(atom(s, f, i, n, false, depth) == Ok::<Parsed, CompileError>(
            Parsed { code: one, next: i + 1, counts: n, repeatable: true },
        ));
        assert(quantifier(s, f.unicode, i + 1) == Ok::<
            Option<(crate::code::Quantifier, int)>,
            CompileError,
        >(None)) by {
            reveal(quantifier);
            if i + 1 < s.len() {
                assert(!is_syntax_char(s[i + 1]));
            }
        }
        assert(term(s, f, i, n, false, depth) == Ok::<Parsed, CompileError>(
            Parsed { code: one, next: i + 1, counts: n, repeatable: true },
        ));
        lemma_plain_alternative(s, f, i + 1, n, depth, acc + one);
        assert(acc + one + plain_code(s.subrange(i + 1, s.len() as int)) =~= acc + plain_code(
            rest,
        ));
    }
}

/// A pattern of plain characters compiles to one instruction for each of
/// its characters, followed by `Accept`.
pub proof fn lemma_plain_compiles(s: Seq<char>, f: Flags)
    requires
        all_plain(s),
        s.len() < MAX_CODE_LEN,
    ensures
        compile_spec(s, f) == Ok::<ProgramView, CompileError>(plain_program(s, f)),
{
    let n = first_counts(NO_LIMIT);
    lemma_plain_alternative(s, f, 0, n, MAX_DEPTH as nat, Seq::empty());
    assert(s.subrange(0, s.len() as int) =~= s);
    assert(Seq::<Inst>::empty() + plain_code(s) =~= plain_code(s));
    let p = Parsed { code: plain_code(s), next: s.len() as int, counts: n, repeatable: false };
    assert(disjunction(s, f, 0, n, false, MAX_DEPTH as nat, None) == Ok::<Parsed, CompileError>(p));
    assert(whole_pattern(s, f, NO_LIMIT) == Ok::<Parsed, CompileError>(p));
    assert(finished(p, f) == Ok::<ProgramView, CompileError>(plain_program(s, f)));
}

/// The run of the program of `s` that has matched the first `j`
/// characters from offset `k` on is accepted if the others follow, and
/// fails if they do not; it takes a step for each character and one to
/// accept.
proof fn lemma_plain_run(
    s: Seq<char>,
    f: Flags,
    t: Seq<char>,
    k: int,
    j: int,
    slots: Seq<Option<usize>>,
    fuel: nat,
)
    requires
        0 <= j <= s.len(),
        0 <= k,
        k + j <= t.len(),
        fuel >= s.len() - j + 1,
        forall|i: int| 0 <= i < j ==> same_char(#[trigger] t[k + i] as u32, s[i] as u32, f),
    ensures
        ({
            let r = run(plain_program(s, f).insts, f, t, Cursor { pc: j, pos: k + j, slots }, fuel);
            &&& occurs_at(s, f, t, k) ==> r.0 == Outcome::Accepted(slots, k + s.len())
            &&& !occurs_at(s, f, t, k) ==> r.0 is Failed
            &&& r.1 >= fuel - (s.len() - j + 1)
        }),
    decreases s.len() - j,
{
    let p = plain_program(s, f).insts;
    let c = Cursor { pc: j, pos: k + j, slots };
    if j == s.len() {
        assert(p[j] == Inst::Accept);
    } else {
        assert(p[j] == Inst::Char(s[j] as u32));
        if k + j < t.len() && same_char(t[k + j] as u32, s[j] as u32, f) {
            assert(advance(p, f, t, c) == Some(Cursor { pc: j + 1, pos: k + j + 1, slots }));
            assert forall|i: int| 0 <= i < j + 1 implies same_char(
                #[trigger] t[k + i] as u32,
                s[i] as u32,
                f,
            ) by {
                if i == j {
                } else {
                }
            }
            lemma_plain_run(s, f, t, k, j + 1, slots, (fuel - 1) as nat);
        } else {
            assert(advance(p, f, t, c) is None);
            if k + j < t.len() {
                assert(!same_char(t[k + j] as u32, s[j] as u32, f));
            }
        }
    }
}

/// A search with the program of `s` finds the first occurrence of `s`, if
/// it has a step for each character of `s` and one more at each offset.
pub proof fn lemma_plain_search(s: Seq<char>, f: Flags, t: Seq<char>, start: int, fuel: nat)
    requires
        0 <= start,
        t.len() <= usize::MAX,
        fuel >= (t.len() + 1 - start) * (s.len() + 1),
    ensures
        search(plain_program(s, f), t, start, fuel) == occurrence_found(s, f, t, start),
    decreases t.len() + 1 - start,
{
    if start <= t.len() {
        let p = plain_program(s, f);
        let slots = unset(p.slots);
        let step = s.len() + 1;
        let left = t.len() - start;
        assert((left + 1) * step == left * step + step) by (nonlinear_arith);
        assert(left * step >= 0) by (nonlinear_arith)
            requires
                left >= 0,
                step >= 0,
        ;
        lemma_plain_run(s, f, t, start, 0, slots, fuel);
        let ran = run(p.insts, f, t, Cursor { pc: 0, pos: start, slots }, fuel);
        if occurs_at(s, f, t, start) {
            assert(groups_of(slots, 1, start, start + s.len(), t.len() as int) =~= seq![
                Some((start as usize, (start + s.len()) as usize)),
            ]);
        } else if !f.sticky {
            lemma_plain_search(s, f, t, start + 1, ran.1);
        }
    }
}

/// A pattern of plain characters finds the first place at which its
/// characters stand in the text, if the budget has a step for each of its
/// characters and one more at each offset of the text.
pub proof fn lemma_plain_pattern_finds_first_occurrence(
    s: Seq<char>,
    f: Flags,
    t: Seq<char>,
    start: int,
    budget: nat,
)
    requires
        all_plain(s),
        s.len() < MAX_CODE_LEN,
        0 <= start,
        t.len() <= usize::MAX,
        budget >= (t.len() + 1) * (s.len() + 1),
    ensures
        compile_spec(s, f) matches Ok(p) && search(p, t, start, budget) == occurrence_found(
            s,
            f,
            t,
            start,
        ),
{
    lemma_plain_compiles(s, f);
    assert((t.len() + 1 - start) * (s.len() + 1) <= (t.len() + 1) * (s.len() + 1))
        by (nonlinear_arith)
        requires
            0 <= start,
            s.len() >= 0,
    ;
    lemma_plain_search(s, f, t, start, budget);
}

} // verus!
