//! What it means to run a program against a text, and the executor that
//! does so.
//!
//! The meaning is given by [`run`], a depth-first search written as a
//! recursive function.  The executor is a loop with an explicit stack of
//! the alternatives still to be tried; it is proved to compute exactly what
//! [`run`] defines, the number of steps included.

use vstd::prelude::*;
use crate::flags::Flags;
use crate::folding::{chars_same, is_word_under, other_forms, same_char, same_letter, word_at};
use crate::program::Inst;
use crate::text::is_line_terminator;

verus! {

/// The state of one thread of execution.
pub struct Cursor {
    /// The index of the next instruction.
    pub pc: int,
    /// The position in the text.
    pub pos: int,
    /// What has been recorded so far.
    pub slots: Seq<Option<usize>>,
}

/// How a run ended.
pub enum Outcome {
    /// `Accept` was reached, with these slots and at this position.
    Accepted(Seq<Option<usize>>, int),
    /// Every alternative was tried and failed.
    Failed,
    /// The steps ran out first.
    Exhausted,
}

/// The index of the instruction at distance `d` from `pc`; the length of the
/// program, which holds no instruction, if there is none at that distance.
pub open spec fn target(len: nat, pc: int, d: int) -> int {
    if 0 <= pc + d < len {
        pc + d
    } else {
        len as int
    }
}

/// Whether one of the range entries of `p` at indices `lo` up to, not
/// including, `hi` holds the code point `c`.
pub open spec fn in_ranges(p: Seq<Inst>, lo: int, hi: int, c: u32) -> bool {
    exists|j: int|
        lo <= j < hi && 0 <= j < p.len() && (#[trigger] p[j] matches Inst::Range(a, b) && a <= c
            <= b)
}

/// Whether the class of `count` ranges whose head stands at `pc` holds `c`:
/// whether one of its ranges does, or, where case is ignored, whether one
/// holds another form of the letter `c`.
pub open spec fn class_holds(p: Seq<Inst>, pc: int, count: int, c: u32, f: Flags) -> bool {
    in_ranges(p, pc + 1, pc + 1 + count, c) || (f.ignore_case && exists|b: u32|
        same_letter(c, b, f.unicode) && in_ranges(p, pc + 1, pc + 1 + count, b))
}

/// The span that group `g` has recorded in `slots`, if it has recorded one
/// that lies in a text of length `len`.
pub open spec fn span_of(slots: Seq<Option<usize>>, g: int, len: int) -> Option<(usize, usize)> {
    if 0 <= g && 2 * g + 1 < slots.len() {
        match (slots[2 * g], slots[2 * g + 1]) {
            (Some(s), Some(e)) => if s <= e <= len {
                Some((s, e))
            } else {
                None
            },
            _ => None,
        }
    } else {
        None
    }
}

/// Whether the `n` characters of `t` from `from` on are the same as those
/// from `at` on.
pub open spec fn same_run(t: Seq<char>, from: int, at: int, n: int, f: Flags) -> bool {
    forall|i: int|
        0 <= i < n ==> same_char(
            #[trigger] t[from + i] as u32,
            t[at + i] as u32,
            f,
        )
}

/// `slots` with the entries from `lo` up to, not including, `hi` cleared.
pub open spec fn cleared(slots: Seq<Option<usize>>, lo: int, hi: int) -> Seq<Option<usize>> {
    Seq::new(
        slots.len(),
        |i: int|
            if lo <= i < hi {
                None
            } else {
                slots[i]
            },
    )
}

/// The effect of an instruction that does not branch: the state after it,
/// or `None` if the thread fails there.  `Split`, `Jump`, `Look`, `Accept`
/// and a stray `Range` are not described here.
pub open spec fn advance(p: Seq<Inst>, f: Flags, t: Seq<char>, c: Cursor) -> Option<
    Cursor,
>
    recommends
        0 <= c.pc < p.len(),
        0 <= c.pos <= t.len(),
{
    let pc = c.pc;
    let pos = c.pos;
    let slots = c.slots;
    let next = pc + 1;
    match p[pc] {
        Inst::Char(x) => if pos < t.len() && same_char(t[pos] as u32, x, f) {
            Some(Cursor { pc: next, pos: pos + 1, slots })
        } else {
            None
        },
        Inst::Any => if pos < t.len() && !is_line_terminator(t[pos]) {
            Some(Cursor { pc: next, pos: pos + 1, slots })
        } else {
            None
        },
        Inst::AnyAll => if pos < t.len() {
            Some(Cursor { pc: next, pos: pos + 1, slots })
        } else {
            None
        },
        Inst::Class { negated, count } => if pos < t.len() && class_holds(
            p,
            pc,
            count as int,
            t[pos] as u32,
            f,
        ) != negated {
            Some(Cursor { pc: target(p.len(), pc, 1 + count), pos: pos + 1, slots })
        } else {
            None
        },
        Inst::Start => if pos == 0 {
            Some(Cursor { pc: next, pos, slots })
        } else {
            None
        },
        Inst::StartLine => if pos == 0 || is_line_terminator(t[pos - 1]) {
            Some(Cursor { pc: next, pos, slots })
        } else {
            None
        },
        Inst::End => if pos == t.len() {
            Some(Cursor { pc: next, pos, slots })
        } else {
            None
        },
        Inst::EndLine => if pos == t.len() || is_line_terminator(t[pos]) {
            Some(Cursor { pc: next, pos, slots })
        } else {
            None
        },
        Inst::WordBoundary => if word_at(t, pos - 1, f) != word_at(t, pos, f) {
            Some(Cursor { pc: next, pos, slots })
        } else {
            None
        },
        Inst::NotWordBoundary => if word_at(t, pos - 1, f) == word_at(t, pos, f) {
            Some(Cursor { pc: next, pos, slots })
        } else {
            None
        },
        Inst::Back => if pos > 0 {
            Some(Cursor { pc: next, pos: pos - 1, slots })
        } else {
            None
        },
        Inst::Save(k) => if k < slots.len() {
            Some(Cursor { pc: next, pos, slots: slots.update(k as int, Some(pos as usize)) })
        } else {
            None
        },
        Inst::Reset(lo, hi) => Some(
            Cursor { pc: next, pos, slots: cleared(slots, lo as int, hi as int) },
        ),
        Inst::Mark(k) => if k < slots.len() {
            Some(
                Cursor {
                    pc: next,
                    pos,
                    slots: slots.update(slots.len() - 1 - k, Some(pos as usize)),
                },
            )
        } else {
            None
        },
        Inst::Progress(k) => if k < slots.len() && slots[slots.len() - 1 - k] == Some(
            pos as usize,
        ) {
            None
        } else {
            Some(Cursor { pc: next, pos, slots })
        },
        Inst::BackRef(g) => match span_of(slots, g as int, t.len() as int) {
            None => Some(Cursor { pc: next, pos, slots }),
            Some((s, e)) => if pos + (e - s) <= t.len() && same_run(
                t,
                s as int,
                pos,
                e - s,
                f,
            ) {
                Some(Cursor { pc: next, pos: pos + (e - s), slots })
            } else {
                None
            },
        },
        Inst::BackRefBack(g) => match span_of(slots, g as int, t.len() as int) {
            None => Some(Cursor { pc: next, pos, slots }),
            Some((s, e)) => if pos - (e - s) >= 0 && same_run(
                t,
                s as int,
                pos - (e - s),
                e - s,
                f,
            ) {
                Some(Cursor { pc: next, pos: pos - (e - s), slots })
            } else {
                None
            },
        },
        _ => None,
    }
}

/// The smaller of two step counts.
pub open spec fn at_most(a: nat, b: nat) -> nat {
    if a <= b {
        a
    } else {
        b
    }
}

/// Runs the thread `c` of program `p` on text `t` with `fuel` steps, trying
/// alternatives depth first and in order; yields how the run ended and how
/// many steps are left.
///
/// Every instruction costs one step, also one that fails and one that
/// would lie outside the program.  A `Split` runs its first branch and, only
/// if that fails, its second with the steps the first has left.  A `Look`
/// runs the instructions after it as a run of their own and goes on, where
/// it goes on, at the position it started from.
///
/// A run never has more steps left than it was given
/// (`lemma_run_uses_fuel`); `at_most` says so where the definition needs it
/// to come to an end.
pub open spec fn run(p: Seq<Inst>, f: Flags, t: Seq<char>, c: Cursor, fuel: nat) -> (
    Outcome,
    nat,
)
    decreases fuel,
{
    if fuel == 0 {
        (Outcome::Exhausted, 0)
    } else {
        let rest = (fuel - 1) as nat;
        if !(0 <= c.pc < p.len()) {
            (Outcome::Failed, rest)
        } else {
            match p[c.pc] {
                Inst::Accept => (Outcome::Accepted(c.slots, c.pos), rest),
                Inst::Range(_, _) => (Outcome::Failed, rest),
                Inst::Jump(d) => run(
                    p,
                    f,
                    t,
                    Cursor { pc: target(p.len(), c.pc, d as int), pos: c.pos, slots: c.slots },
                    rest,
                ),
                Inst::Split(a, b) => {
                    let first = run(
                        p,
                        f,
                        t,
                        Cursor { pc: target(p.len(), c.pc, a as int), pos: c.pos, slots: c.slots },
                        rest,
                    );
                    if first.0 is Failed {
                        run(
                            p,
                            f,
                            t,
                            Cursor {
                                pc: target(p.len(), c.pc, b as int),
                                pos: c.pos,
                                slots: c.slots,
                            },
                            at_most(first.1, rest),
                        )
                    } else {
                        first
                    }
                },
                Inst::Look { negative, end } => {
                    let inner = run(
                        p,
                        f,
                        t,
                        Cursor { pc: c.pc + 1, pos: c.pos, slots: c.slots },
                        rest,
                    );
                    let left = at_most(inner.1, rest);
                    let after = target(p.len(), c.pc, end as int);
                    match inner.0 {
                        Outcome::Exhausted => inner,
                        Outcome::Accepted(slots, _) => if negative {
                            (Outcome::Failed, left)
                        } else {
                            run(p, f, t, Cursor { pc: after, pos: c.pos, slots }, left)
                        },
                        Outcome::Failed => if negative {
                            run(
                                p,
                                f,
                                t,
                                Cursor { pc: after, pos: c.pos, slots: c.slots },
                                left,
                            )
                        } else {
                            (Outcome::Failed, left)
                        },
                    }
                },
                _ => match advance(p, f, t, c) {
                    Some(next) => run(p, f, t, next, rest),
                    None => (Outcome::Failed, rest),
                },
            }
        }
    }
}

/// A run never has more steps left than it was given, and fewer if it was
/// given any.
pub proof fn lemma_run_uses_fuel(
    p: Seq<Inst>,
    f: Flags,
    t: Seq<char>,
    c: Cursor,
    fuel: nat,
)
    ensures
        run(p, f, t, c, fuel).1 <= fuel,
        fuel > 0 ==> run(p, f, t, c, fuel).1 < fuel,
    decreases fuel,
{
    if fuel > 0 && 0 <= c.pc < p.len() {
        let rest = (fuel - 1) as nat;
        match p[c.pc] {
            Inst::Jump(d) => {
                lemma_run_uses_fuel(
                    p,
                    f,
                    t,
                    Cursor { pc: target(p.len(), c.pc, d as int), pos: c.pos, slots: c.slots },
                    rest,
                );
            },
            Inst::Split(a, b) => {
                let ca = Cursor { pc: target(p.len(), c.pc, a as int), pos: c.pos, slots: c.slots };
                let cb = Cursor { pc: target(p.len(), c.pc, b as int), pos: c.pos, slots: c.slots };
                lemma_run_uses_fuel(p, f, t, ca, rest);
                let first = run(p, f, t, ca, rest);
                lemma_run_uses_fuel(p, f, t, cb, at_most(first.1, rest));
            },
            Inst::Look { negative, end } => {
                let ci = Cursor { pc: c.pc + 1, pos: c.pos, slots: c.slots };
                lemma_run_uses_fuel(p, f, t, ci, rest);
                let inner = run(p, f, t, ci, rest);
                let left = at_most(inner.1, rest);
                let after = target(p.len(), c.pc, end as int);
                match inner.0 {
                    Outcome::Exhausted => {},
                    Outcome::Accepted(slots, _) => {
                        lemma_run_uses_fuel(
                            p,
                            f,
                            t,
                            Cursor { pc: after, pos: c.pos, slots },
                            left,
                        );
                    },
                    Outcome::Failed => {
                        lemma_run_uses_fuel(
                            p,
                            f,
                            t,
                            Cursor { pc: after, pos: c.pos, slots: c.slots },
                            left,
                        );
                    },
                }
            },
            Inst::Accept => {},
            Inst::Range(_, _) => {},
            _ => {
                match advance(p, f, t, c) {
                    Some(next) => {
                        lemma_run_uses_fuel(p, f, t, next, rest);
                    },
                    None => {},
                }
            },
        }
    }
}

/// A run that came to an end with the steps it was given comes to the same
/// end with more, and has as many more left.
pub proof fn lemma_run_more_fuel(
    p: Seq<Inst>,
    f: Flags,
    t: Seq<char>,
    c: Cursor,
    fuel: nat,
    more: nat,
)
    requires
        !(run(p, f, t, c, fuel).0 is Exhausted),
    ensures
        run(p, f, t, c, fuel + more) == (
            run(p, f, t, c, fuel).0,
            run(p, f, t, c, fuel).1 + more,
        ),
    decreases fuel,
{
    if fuel > 0 && 0 <= c.pc < p.len() {
        let rest = (fuel - 1) as nat;
        let rest2 = (fuel + more - 1) as nat;
        assert(rest2 == rest + more);
        match p[c.pc] {
            Inst::Jump(d) => {
                lemma_run_more_fuel(
                    p,
                    f,
                    t,
                    Cursor { pc: target(p.len(), c.pc, d as int), pos: c.pos, slots: c.slots },
                    rest,
                    more,
                );
            },
            Inst::Split(a, b) => {
                let ca = Cursor { pc: target(p.len(), c.pc, a as int), pos: c.pos, slots: c.slots };
                let cb = Cursor { pc: target(p.len(), c.pc, b as int), pos: c.pos, slots: c.slots };
                let first = run(p, f, t, ca, rest);
                lemma_run_uses_fuel(p, f, t, ca, rest);
                lemma_run_more_fuel(p, f, t, ca, rest, more);
                if first.0 is Failed {
                    lemma_run_more_fuel(p, f, t, cb, first.1, more);
                }
            },
            Inst::Look { negative, end } => {
                let ci = Cursor { pc: c.pc + 1, pos: c.pos, slots: c.slots };
                let inner = run(p, f, t, ci, rest);
                lemma_run_uses_fuel(p, f, t, ci, rest);
                lemma_run_more_fuel(p, f, t, ci, rest, more);
                let after = target(p.len(), c.pc, end as int);
                match inner.0 {
                    Outcome::Exhausted => {},
                    Outcome::Accepted(slots, _) => {
                        if !negative {
                            lemma_run_more_fuel(
                                p,
                                f,
                                t,
                                Cursor { pc: after, pos: c.pos, slots },
                                inner.1,
                                more,
                            );
                        }
                    },
                    Outcome::Failed => {
                        if negative {
                            lemma_run_more_fuel(
                                p,
                                f,
                                t,
                                Cursor { pc: after, pos: c.pos, slots: c.slots },
                                inner.1,
                                more,
                            );
                        }
                    },
                }
            },
            Inst::Accept => {},
            Inst::Range(_, _) => {},
            _ => {
                match advance(p, f, t, c) {
                    Some(next) => {
                        lemma_run_more_fuel(p, f, t, next, rest, more);
                    },
                    None => {},
                }
            },
        }
    }
}

/// A copy of `slots`.
pub(crate) fn copy_slots(slots: &Vec<Option<usize>>) -> (r: Vec<Option<usize>>)
    ensures
        r@ == slots@,
{
    let mut r: Vec<Option<usize>> = Vec::new();
    let mut i: usize = 0;
    while i < slots.len()
        invariant
            i <= slots.len(),
            r@ == slots@.take(i as int),
        decreases slots.len() - i,
    {
        r.push(slots[i]);
        i = i + 1;
        assert(r@ =~= slots@.take(i as int));
    }
    assert(slots@.take(slots.len() as int) =~= slots@);
    r
}

/// The index of the instruction at distance `d` from `pc`, or `len`.
fn target_of(len: usize, pc: usize, d: i32) -> (r: usize)
    requires
        pc < len,
    ensures
        r == target(len as nat, pc as int, d as int),
{
    if d >= 0 {
        let up: usize = d as usize;
        if up < len - pc {
            pc + up
        } else {
            len
        }
    } else {
        let down: u64 = (-(d as i64)) as u64;
        if down <= pc as u64 {
            pc - (down as usize)
        } else {
            len
        }
    }
}

/// Whether the class of `count` ranges whose head stands at `pc` holds `c`,
/// as the ranges stand.
fn ranges_hold(insts: &Vec<Inst>, pc: usize, count: u32, c: u32) -> (r: bool)
    requires
        pc < insts.len(),
    ensures
        r == in_ranges(insts@, pc + 1, pc + 1 + count, c),
{
    let mut j: usize = pc + 1;
    let mut seen: u32 = 0;
    while j < insts.len() && seen < count
        invariant
            pc < insts.len(),
            j == pc + 1 + seen,
            j <= insts.len(),
            seen <= count,
            !in_ranges(insts@, pc + 1, j as int, c),
        decreases count - seen,
    {
        if let Inst::Range(a, b) = insts[j] {
            if a <= c && c <= b {
                assert(in_ranges(insts@, pc + 1, pc + 1 + count, c));
                return true;
            }
        }
        j = j + 1;
        seen = seen + 1;
    }
    false
}

/// The span that group `g` has recorded in `slots`.
pub(crate) fn span(slots: &Vec<Option<usize>>, g: usize, len: usize) -> (r: Option<(usize, usize)>)
    ensures
        r == span_of(slots@, g as int, len as int),
{
    if g < slots.len() / 2 && 2 * g + 1 < slots.len() {
        let hi: usize = 2 * g + 1;
        match (slots[hi - 1], slots[hi]) {
            (Some(s), Some(e)) => if s <= e && e <= len {
                Some((s, e))
            } else {
                None
            },
            _ => None,
        }
    } else {
        None
    }
}

/// Whether the `n` characters from `from` on are the same as those from
/// `at` on.
fn runs_same(t: &Vec<char>, from: usize, at: usize, n: usize, f: Flags) -> (r: bool)
    requires
        from + n <= t.len(),
        at + n <= t.len(),
    ensures
        r == same_run(t@, from as int, at as int, n as int, f),
{
    let mut i: usize = 0;
    while i < n
        invariant
            i <= n,
            from + n <= t.len(),
            at + n <= t.len(),
            same_run(t@, from as int, at as int, i as int, f),
        decreases n - i,
    {
        if !chars_same(t[from + i] as u32, t[at + i] as u32, f) {
            assert(!same_char(t@[from + i] as u32, t@[at + i] as u32, f));
            return false;
        }
        i = i + 1;
    }
    true
}

/// Clears the entries of `slots` from `lo` up to, not including, `hi`.
fn clear(slots: &mut Vec<Option<usize>>, lo: u32, hi: u32)
    ensures
        final(slots)@ == cleared(old(slots)@, lo as int, hi as int),
{
    let mut i: usize = lo as usize;
    while i < slots.len() && i < hi as usize
        invariant
            lo <= i,
            i <= hi || i == lo,
            slots.len() == old(slots).len(),
            forall|k: int|
                0 <= k < slots.len() ==> slots[k] == if lo <= k < i {
                    None
                } else {
                    old(slots)[k]
                },
        decreases slots.len() - i,
    {
        slots.set(i, None);
        i = i + 1;
    }
    assert(slots@ =~= cleared(old(slots)@, lo as int, hi as int));
}

/// Whether position `i` holds a word character.
fn is_word_at(t: &Vec<char>, i: usize, f: Flags) -> (r: bool)
    ensures
        r == word_at(t@, i as int, f),
{
    i < t.len() && is_word_under(t[i] as u32, f)
}

/// Whether the positions on both sides of `pos` differ in being a word
/// character.
fn at_word_boundary(t: &Vec<char>, pos: usize, f: Flags) -> (r: bool)
    requires
        pos <= t.len(),
    ensures
        r == (word_at(t@, pos - 1, f) != word_at(t@, pos as int, f)),
{
    let before = pos > 0 && is_word_at(t, pos - 1, f);
    let after = is_word_at(t, pos, f);
    before != after
}

/// Whether the class of `count` ranges whose head stands at `pc` holds
/// `c`.
fn class_has(insts: &Vec<Inst>, pc: usize, count: u32, c: u32, f: Flags) -> (r: bool)
    requires
        pc < insts.len(),
    ensures
        r == class_holds(insts@, pc as int, count as int, c, f),
{
    if ranges_hold(insts, pc, count, c) {
        return true;
    }
    if !f.ignore_case {
        return false;
    }
    let forms = other_forms(c, f.unicode);
    let mut i: usize = 0;
    while i < forms.len()
        invariant
            i <= forms.len(),
            pc < insts.len(),
            f.ignore_case,
            !in_ranges(insts@, pc + 1, pc + 1 + count, c),
            forall|x: u32| #[trigger] forms@.contains(x) <==> same_letter(c, x, f.unicode),
            forall|k: int|
                0 <= k < i ==> !in_ranges(insts@, pc + 1, pc + 1 + count, #[trigger] forms[k]),
        decreases forms.len() - i,
    {
        if ranges_hold(insts, pc, count, forms[i]) {
            assert(forms@.contains(forms[i as int]));
            return true;
        }
        i = i + 1;
    }
    assert forall|x: u32| same_letter(c, x, f.unicode) implies !in_ranges(
        insts@,
        pc + 1,
        pc + 1 + count,
        x,
    ) by {
        assert(forms@.contains(x));
    }
    false
}

/// Carries out an instruction that does not branch.  Returns the next
/// instruction and position, with `slots` updated, or `None` if the thread
/// fails.
fn step(
    insts: &Vec<Inst>,
    f: Flags,
    t: &Vec<char>,
    pc: usize,
    pos: usize,
    slots: &mut Vec<Option<usize>>,
) -> (r: Option<(usize, usize)>)
    requires
        pc < insts.len(),
        pos <= t.len(),
    ensures
        match advance(
            insts@,
            f,
            t@,
            Cursor { pc: pc as int, pos: pos as int, slots: old(slots)@ },
        ) {
            Some(c) => r == Some((c.pc as usize, c.pos as usize)) && c.pc == r.unwrap().0 && c.pos
                == r.unwrap().1 && final(slots)@ == c.slots && c.pos <= t.len() && c.pc
                <= insts.len(),
            None => r is None,
        },
{
    let next = pc + 1;
    match insts[pc] {
        Inst::Char(x) => if pos < t.len() && chars_same(t[pos] as u32, x, f) {
            Some((next, pos + 1))
        } else {
            None
        },
        Inst::Any => if pos < t.len() && !is_line_terminator(t[pos]) {
            Some((next, pos + 1))
        } else {
            None
        },
        Inst::AnyAll => if pos < t.len() {
            Some((next, pos + 1))
        } else {
            None
        },
        Inst::Class { negated, count } => {
            if pos < t.len() {
                let c = t[pos] as u32;
                if class_has(insts, pc, count, c, f) != negated {
                    let after = if (count as u64) < (insts.len() - pc - 1) as u64 {
                        pc + 1 + count as usize
                    } else {
                        insts.len()
                    };
                    Some((after, pos + 1))
                } else {
                    None
                }
            } else {
                None
            }
        },
        Inst::Start => if pos == 0 {
            Some((next, pos))
        } else {
            None
        },
        Inst::StartLine => if pos == 0 || is_line_terminator(t[pos - 1]) {
            Some((next, pos))
        } else {
            None
        },
        Inst::End => if pos == t.len() {
            Some((next, pos))
        } else {
            None
        },
        Inst::EndLine => if pos == t.len() || is_line_terminator(t[pos]) {
            Some((next, pos))
        } else {
            None
        },
        Inst::WordBoundary => if at_word_boundary(t, pos, f) {
            Some((next, pos))
        } else {
            None
        },
        Inst::NotWordBoundary => if !at_word_boundary(t, pos, f) {
            Some((next, pos))
        } else {
            None
        },
        Inst::Back => if pos > 0 {
            Some((next, pos - 1))
        } else {
            None
        },
        Inst::Save(k) => if (k as u64) < slots.len() as u64 {
            slots.set(k as usize, Some(pos));
            Some((next, pos))
        } else {
            None
        },
        Inst::Reset(lo, hi) => {
            clear(slots, lo, hi);
            Some((next, pos))
        },
        Inst::Mark(k) => if (k as u64) < slots.len() as u64 {
            let at = slots.len() - 1 - k as usize;
            slots.set(at, Some(pos));
            Some((next, pos))
        } else {
            None
        },
        Inst::Progress(k) => {
            if (k as u64) < slots.len() as u64 {
                match slots[slots.len() - 1 - k as usize] {
                    Some(at) => if at == pos {
                        None
                    } else {
                        Some((next, pos))
                    },
                    None => Some((next, pos)),
                }
            } else {
                Some((next, pos))
            }
        },
        Inst::BackRef(g) => match span(slots, g as usize, t.len()) {
            None => Some((next, pos)),
            Some((s, e)) => {
                let n = e - s;
                if n <= t.len() - pos && runs_same(t, s, pos, n, f) {
                    Some((next, pos + n))
                } else {
                    None
                }
            },
        },
        Inst::BackRefBack(g) => match span(slots, g as usize, t.len()) {
            None => Some((next, pos)),
            Some((s, e)) => {
                let n = e - s;
                if n <= pos && runs_same(t, s, pos - n, n, f) {
                    Some((next, pos - n))
                } else {
                    None
                }
            },
        },
        _ => None,
    }
}

/// A thread of execution set aside until those tried before it have failed.
pub struct Thread {
    pc: usize,
    pos: usize,
    slots: Vec<Option<usize>>,
}

impl Thread {
    /// The state the thread will take up.
    pub closed spec fn cursor(self) -> Cursor {
        Cursor { pc: self.pc as int, pos: self.pos as int, slots: self.slots@ }
    }
}

/// How a run of the executor ended.
pub enum Ran {
    /// `Accept` was reached, with these slots and at this position.
    Accepted(Vec<Option<usize>>, usize),
    /// Every alternative was tried and failed.
    Failed,
    /// The steps ran out first.
    Exhausted,
}

impl View for Ran {
    type V = Outcome;

    open spec fn view(&self) -> Outcome {
        match self {
            Ran::Accepted(slots, pos) => Outcome::Accepted(slots@, *pos as int),
            Ran::Failed => Outcome::Failed,
            Ran::Exhausted => Outcome::Exhausted,
        }
    }
}

/// What becomes of the result `r` of the running thread when the threads
/// of `stack` wait behind it: while the result is a failure, the thread
/// set aside last is run with the steps that are left.
pub closed spec fn resume(
    p: Seq<Inst>,
    f: Flags,
    t: Seq<char>,
    stack: Seq<Thread>,
    r: (Outcome, nat),
) -> (Outcome, nat)
    decreases stack.len(),
{
    if stack.len() == 0 || !(r.0 is Failed) {
        r
    } else {
        resume(
            p,
            f,
            t,
            stack.drop_last(),
            run(p, f, t, stack.last().cursor(), r.1),
        )
    }
}

/// Runs the thread that starts at instruction `start_pc` and position
/// `start_pos` with the given slots, for at most `*fuel` steps, and leaves in `*fuel` the
/// steps that were not used.
pub(crate) fn execute(
    insts: &Vec<Inst>,
    f: Flags,
    t: &Vec<char>,
    start_pc: usize,
    start_pos: usize,
    start_slots: Vec<Option<usize>>,
    fuel: &mut u64,
) -> (r: Ran)
    requires
        start_pos <= t.len(),
    ensures
        (r@, *final(fuel) as nat) == run(
            insts@,
            f,
            t@,
            Cursor { pc: start_pc as int, pos: start_pos as int, slots: start_slots@ },
            *old(fuel) as nat,
        ),
        r matches Ran::Accepted(_, end) ==> end <= t.len(),
    decreases *old(fuel),
{
    let ghost goal = run(
        insts@,
        f,
        t@,
        Cursor { pc: start_pc as int, pos: start_pos as int, slots: start_slots@ },
        *fuel as nat,
    );
    let len = insts.len();
    let mut pc = start_pc;
    let mut pos = start_pos;
    let mut slots = start_slots;
    let mut stack: Vec<Thread> = Vec::new();
    loop
        invariant
            len == insts.len(),
            pos <= t.len(),
            forall|k: int| 0 <= k < stack.len() ==> (#[trigger] stack[k]).pos <= t.len(),
            *fuel <= *old(fuel),
            goal == run(
                insts@,
                f,
                t@,
                Cursor { pc: start_pc as int, pos: start_pos as int, slots: start_slots@ },
                *old(fuel) as nat,
            ),
            resume(
                insts@,
                f,
                t@,
                stack@,
                run(
                    insts@,
                    f,
                    t@,
                    Cursor { pc: pc as int, pos: pos as int, slots: slots@ },
                    *fuel as nat,
                ),
            ) == goal,
        decreases *fuel,
    {
        let ghost here = Cursor { pc: pc as int, pos: pos as int, slots: slots@ };
        if *fuel == 0 {
            return Ran::Exhausted;
        }
        *fuel = *fuel - 1;
        let ghost rest = *fuel as nat;
        let mut alive = true;
        if pc >= len {
            alive = false;
        } else {
            match insts[pc] {
                Inst::Accept => {
                    return Ran::Accepted(slots, pos);
                },
                Inst::Range(_, _) => {
                    alive = false;
                },
                Inst::Jump(d) => {
                    pc = target_of(len, pc, d);
                },
                Inst::Split(a, b) => {
                    let other = Thread {
                        pc: target_of(len, pc, b),
                        pos,
                        slots: copy_slots(&slots),
                    };
                    let first = target_of(len, pc, a);
                    proof {
                        let ca = Cursor { pc: first as int, pos: pos as int, slots: slots@ };
                        lemma_run_uses_fuel(insts@, f, t@, ca, rest);
                        assert(stack@.push(other).drop_last() =~= stack@);
                        assert(stack@.push(other).last() == other);
                    }
                    stack.push(other);
                    pc = first;
                },
                Inst::Look { negative, end } => {
                    proof {
                        let ci = Cursor { pc: pc + 1, pos: pos as int, slots: slots@ };
                        lemma_run_uses_fuel(insts@, f, t@, ci, rest);
                    }
                    let after = target_of(len, pc, end);
                    let inner = execute(insts, f, t, pc + 1, pos, copy_slots(&slots), fuel);
                    match inner {
                        Ran::Exhausted => {
                            return Ran::Exhausted;
                        },
                        Ran::Accepted(found, _) => {
                            if negative {
                                alive = false;
                            } else {
                                slots = found;
                                pc = after;
                            }
                        },
                        Ran::Failed => {
                            if negative {
                                pc = after;
                            } else {
                                alive = false;
                            }
                        },
                    }
                },
                _ => {
                    match step(insts, f, t, pc, pos, &mut slots) {
                        Some((next_pc, next_pos)) => {
                            pc = next_pc;
                            pos = next_pos;
                        },
                        None => {
                            alive = false;
                        },
                    }
                },
            }
        }
        if !alive {
            assert(run(insts@, f, t@, here, (rest + 1) as nat) == (Outcome::Failed, *fuel as nat));
            match stack.pop() {
                None => {
                    return Ran::Failed;
                },
                Some(th) => {
                    pc = th.pc;
                    pos = th.pos;
                    slots = th.slots;
                },
            }
        }
    }
}

} // verus!
