//! What holds of running a valid program: the run never leaves the
//! program or the text, and never wants a slot that is not there.

use vstd::prelude::*;
use crate::flags::Flags;
use crate::program::Inst;
use crate::valid::{sound, valid, Limits};
use crate::vm::{advance, at_most, lemma_run_uses_fuel, run, target, Cursor, Outcome};

verus! {

/// Whether the thread `c` is in its place: at an instruction of the
/// program `p`, at a position of the text `t`, and with a slot for
/// everything that the limits `l` allow to be recorded.
pub open spec fn in_place(p: Seq<Inst>, t: Seq<char>, c: Cursor, l: Limits) -> bool {
    &&& 0 <= c.pc < p.len()
    &&& 0 <= c.pos <= t.len()
    &&& c.slots.len() >= 2 * l.groups + l.marks
    &&& l.groups >= 0
    &&& l.marks >= 0
}

/// The branches of a valid program lead to instructions of the program.
pub proof fn lemma_branches_stay(p: Seq<Inst>, l: Limits, pc: int)
    requires
        valid(p, l),
        0 <= pc < p.len(),
    ensures
        p[pc] matches Inst::Jump(d) ==> target(p.len(), pc, d as int) == pc + d && 0 <= pc + d
            < p.len(),
        p[pc] matches Inst::Split(a, b) ==> target(p.len(), pc, a as int) == pc + a && 0 <= pc
            + a < p.len() && target(p.len(), pc, b as int) == pc + b && 0 <= pc + b < p.len(),
        p[pc] matches Inst::Look { negative, end } ==> target(p.len(), pc, end as int) == pc
            + end && 0 <= pc + end < p.len() && pc + 1 < p.len(),
        p[pc] matches Inst::Class { negated, count } ==> target(p.len(), pc, 1 + count) == pc
            + 1 + count && pc + 1 + count < p.len(),
        p[pc] != Inst::Accept ==> pc + 1 < p.len(),
{
    assert(sound(p, pc, p.len() - 1, l));
    match p[pc] {
        Inst::Class { negated, count } => {
            if count > 0 {
                assert(p[pc + count] is Range);
            }
        },
        _ => {},
    }
}

/// An instruction of a valid program that does not branch leaves a thread
/// that is in its place in its place, with as many slots as before; and
/// storing a position never fails.
pub proof fn lemma_advance_stays(p: Seq<Inst>, f: Flags, t: Seq<char>, c: Cursor, l: Limits)
    requires
        valid(p, l),
        in_place(p, t, c, l),
    ensures
        advance(p, f, t, c) matches Some(next) ==> in_place(p, t, next, l) && next.slots.len()
            == c.slots.len(),
        p[c.pc] is Save ==> advance(p, f, t, c) is Some,
        p[c.pc] is Mark ==> advance(p, f, t, c) is Some,
{
    lemma_branches_stay(p, l, c.pc);
    assert(sound(p, c.pc, p.len() - 1, l));
}

/// A run of a valid program that begins in its place ends, if it is
/// accepted, at a position of the text, with as many slots as it began
/// with.
pub proof fn lemma_run_stays(
    p: Seq<Inst>,
    f: Flags,
    t: Seq<char>,
    c: Cursor,
    fuel: nat,
    l: Limits,
)
    requires
        valid(p, l),
        in_place(p, t, c, l),
    ensures
        run(p, f, t, c, fuel).0 matches Outcome::Accepted(slots, end) ==> 0 <= end <= t.len()
            && slots.len() == c.slots.len(),
    decreases fuel,
{
    if fuel > 0 {
        let rest = (fuel - 1) as nat;
        lemma_branches_stay(p, l, c.pc);
        match p[c.pc] {
            Inst::Jump(d) => {
                lemma_run_stays(
                    p,
                    f,
                    t,
                    Cursor { pc: target(p.len(), c.pc, d as int), pos: c.pos, slots: c.slots },
                    rest,
                    l,
                );
            },
            Inst::Split(a, b) => {
                let ca = Cursor { pc: target(p.len(), c.pc, a as int), pos: c.pos, slots: c.slots };
                let cb = Cursor { pc: target(p.len(), c.pc, b as int), pos: c.pos, slots: c.slots };
                lemma_run_stays(p, f, t, ca, rest, l);
                let first = run(p, f, t, ca, rest);
                lemma_run_stays(p, f, t, cb, at_most(first.1, rest), l);
            },
            Inst::Look { negative, end } => {
                let ci = Cursor { pc: c.pc + 1, pos: c.pos, slots: c.slots };
                lemma_run_stays(p, f, t, ci, rest, l);
                lemma_run_uses_fuel(p, f, t, ci, rest);
                let inner = run(p, f, t, ci, rest);
                let left = at_most(inner.1, rest);
                let after = target(p.len(), c.pc, end as int);
                match inner.0 {
                    Outcome::Exhausted => {},
                    Outcome::Accepted(slots, _) => {
                        lemma_run_stays(p, f, t, Cursor { pc: after, pos: c.pos, slots }, left, l);
                    },
                    Outcome::Failed => {
                        lemma_run_stays(
                            p,
                            f,
                            t,
                            Cursor { pc: after, pos: c.pos, slots: c.slots },
                            left,
                            l,
                        );
                    },
                }
            },
            Inst::Accept => {},
            Inst::Range(_, _) => {},
            _ => {
                lemma_advance_stays(p, f, t, c, l);
                match advance(p, f, t, c) {
                    Some(next) => {
                        lemma_run_stays(p, f, t, next, rest, l);
                    },
                    None => {},
                }
            },
        }
    }
}

} // verus!
