//! What makes a program valid, and why the code of every construct is.
//!
//! An instruction is sound if everything it refers to exists: the
//! instructions it branches to, the range entries it reads, the slots it
//! writes, and the groups it copies.  Code whose instructions are all
//! sound, branches to the instruction behind the code included, is called
//! closed; put in a row, closed code stays closed.

use vstd::prelude::*;
use crate::code::{
    branch, directed, either_code, extra, group_code, guarded, iteration, look_code,
    options_code, repeat_code, star_code, times, Quantifier,
};
use crate::program::Inst;

verus! {

/// The limits that instructions must keep to: the number of groups, of
/// marks, and the greatest group that may be referred back to.
pub struct Limits {
    /// The number of groups, the whole match included.
    pub groups: int,
    /// The number of marks.
    pub marks: int,
    /// The greatest group number of a back reference.
    pub refs: int,
}

/// Whether the `count` entries behind instruction `i` are ranges.
pub open spec fn ranges_follow(code: Seq<Inst>, i: int, count: int) -> bool {
    forall|j: int| i < j <= i + count ==> #[trigger] code[j] is Range
}

/// Whether instruction `i` of `code` is sound: it branches only to
/// instructions from the first up to the one at `end`, reads only range
/// entries that stand in the code, and keeps to the limits `l`.
pub open spec fn sound(code: Seq<Inst>, i: int, end: int, l: Limits) -> bool {
    match code[i] {
        Inst::Split(a, b) => 0 <= i + a <= end && 0 <= i + b <= end,
        Inst::Jump(d) => 0 <= i + d <= end,
        Inst::Look { negative, end: e } => 0 <= i + e <= end,
        Inst::Class { negated, count } => i + count < code.len() && ranges_follow(
            code,
            i,
            count as int,
        ),
        Inst::Save(k) => k < 2 * l.groups,
        Inst::Reset(lo, hi) => hi <= 2 * l.groups,
        Inst::Mark(k) => k < l.marks,
        Inst::Progress(k) => k < l.marks,
        Inst::BackRef(g) => g <= l.refs,
        Inst::BackRefBack(g) => g <= l.refs,
        _ => true,
    }
}

/// Whether `code` is closed: each of its instructions is sound, where a
/// branch may also lead to the instruction behind the code.
pub open spec fn closed(code: Seq<Inst>, l: Limits) -> bool {
    forall|i: int| 0 <= i < code.len() ==> #[trigger] sound(code, i, code.len() as int, l)
}

/// Whether `code` is a valid program: it ends with `Accept`, and each of
/// its instructions is sound and branches to an instruction of the
/// program.
pub open spec fn valid(code: Seq<Inst>, l: Limits) -> bool {
    &&& code.len() >= 1
    &&& code.last() == Inst::Accept
    &&& forall|i: int| 0 <= i < code.len() ==> #[trigger] sound(code, i, code.len() - 1, l)
}

/// Whether the limits `a` are within the limits `b`.
pub open spec fn limits_within(a: Limits, b: Limits) -> bool {
    a.groups <= b.groups && a.marks <= b.marks && a.refs <= b.refs
}

/// Code that is closed stays closed when the limits grow.
pub proof fn lemma_closed_grows(code: Seq<Inst>, a: Limits, b: Limits)
    requires
        closed(code, a),
        limits_within(a, b),
    ensures
        closed(code, b),
{
    assert forall|i: int| 0 <= i < code.len() implies #[trigger] sound(
        code,
        i,
        code.len() as int,
        b,
    ) by {
        assert(sound(code, i, code.len() as int, a));
    }
}

/// Closed code that stands somewhere in other code has sound instructions
/// there.
pub proof fn lemma_embedded(whole: Seq<Inst>, part: Seq<Inst>, at: int, l: Limits)
    requires
        0 <= at,
        at + part.len() <= whole.len(),
        forall|j: int| 0 <= j < part.len() ==> whole[at + j] == #[trigger] part[j],
        closed(part, l),
    ensures
        forall|i: int|
            at <= i < at + part.len() ==> #[trigger] sound(whole, i, whole.len() as int, l),
{
    assert forall|i: int| at <= i < at + part.len() implies #[trigger] sound(
        whole,
        i,
        whole.len() as int,
        l,
    ) by {
        let j = i - at;
        assert(whole[at + j] == part[j]);
        assert(sound(part, j, part.len() as int, l));
        match part[j] {
            Inst::Class { negated, count } => {
                assert forall|k: int| i < k <= i + count implies #[trigger] whole[k] is Range by {
                    assert(whole[at + (k - at)] == part[k - at]);
                    assert(part[k - at] is Range);
                }
            },
            _ => {},
        }
    }
}

/// Closed code followed by closed code is closed.
pub proof fn lemma_closed_concat(a: Seq<Inst>, b: Seq<Inst>, l: Limits)
    requires
        closed(a, l),
        closed(b, l),
    ensures
        closed(a + b, l),
{
    lemma_embedded(a + b, a, 0, l);
    lemma_embedded(a + b, b, a.len() as int, l);
}

/// Whether `inst` refers to nothing but the limits, and keeps to them.
pub open spec fn plain(inst: Inst, l: Limits) -> bool {
    match inst {
        Inst::Split(_, _) => false,
        Inst::Jump(_) => false,
        Inst::Look { .. } => false,
        Inst::Class { .. } => false,
        Inst::Save(k) => k < 2 * l.groups,
        Inst::Reset(lo, hi) => hi <= 2 * l.groups,
        Inst::Mark(k) => k < l.marks,
        Inst::Progress(k) => k < l.marks,
        Inst::BackRef(g) => g <= l.refs,
        Inst::BackRefBack(g) => g <= l.refs,
        _ => true,
    }
}

/// One plain instruction is closed code.
pub proof fn lemma_closed_single(inst: Inst, l: Limits)
    requires
        plain(inst, l),
    ensures
        closed(seq![inst], l),
{
    assert(sound(seq![inst], 0, 1, l));
}

/// No code is closed code.
pub proof fn lemma_closed_empty(l: Limits)
    ensures
        closed(Seq::<Inst>::empty(), l),
{
}

/// A class and its ranges are closed code.
pub proof fn lemma_closed_class(negated: bool, ranges: Seq<Inst>, l: Limits)
    requires
        ranges.len() <= u32::MAX,
        forall|j: int| 0 <= j < ranges.len() ==> #[trigger] ranges[j] is Range,
    ensures
        closed(seq![Inst::Class { negated, count: ranges.len() as u32 }] + ranges, l),
{
    let code = seq![Inst::Class { negated, count: ranges.len() as u32 }] + ranges;
    assert forall|i: int| 0 <= i < code.len() implies #[trigger] sound(
        code,
        i,
        code.len() as int,
        l,
    ) by {
        if i == 0 {
            assert forall|j: int| 0 < j <= ranges.len() implies #[trigger] code[j] is Range by {
                assert(code[j] == ranges[j - 1]);
            }
        } else {
            assert(code[i] == ranges[i - 1]);
        }
    }
}

/// Closed code that consumes one character stays closed when it is made
/// to read backwards.
pub proof fn lemma_closed_directed(code: Seq<Inst>, back: bool, l: Limits)
    requires
        closed(code, l),
    ensures
        closed(directed(code, back), l),
{
    if back {
        lemma_closed_single(Inst::Back, l);
        lemma_closed_concat(seq![Inst::Back], code, l);
        lemma_closed_concat(seq![Inst::Back] + code, seq![Inst::Back], l);
    }
}

/// The code of a group around closed code is closed.
pub proof fn lemma_closed_group(g: int, inner: Seq<Inst>, back: bool, l: Limits)
    requires
        closed(inner, l),
        0 <= g < l.groups,
        l.groups <= 0x1_0000,
    ensures
        closed(group_code(g, inner, back), l),
{
    let first = Inst::Save((2 * g) as u32);
    let second = Inst::Save((2 * g + 1) as u32);
    lemma_closed_single(first, l);
    lemma_closed_single(second, l);
    if back {
        lemma_closed_concat(seq![second], inner, l);
        lemma_closed_concat(seq![second] + inner, seq![first], l);
    } else {
        lemma_closed_concat(seq![first], inner, l);
        lemma_closed_concat(seq![first] + inner, seq![second], l);
    }
}

/// The code of a lookaround assertion around closed code is closed.
pub proof fn lemma_closed_look(negative: bool, inner: Seq<Inst>, l: Limits)
    requires
        closed(inner, l),
        inner.len() + 2 <= i32::MAX,
    ensures
        closed(look_code(negative, inner), l),
{
    let code = look_code(negative, inner);
    lemma_embedded(code, inner, 1, l);
    assert forall|i: int| 0 <= i < code.len() implies #[trigger] sound(
        code,
        i,
        code.len() as int,
        l,
    ) by {
        if i == 0 {
        } else if i <= inner.len() {
        } else {
            assert(code[i] == Inst::Accept);
        }
    }
}

/// The code that tries one closed code and then another is closed.
pub proof fn lemma_closed_either(a: Seq<Inst>, b: Seq<Inst>, l: Limits)
    requires
        closed(a, l),
        closed(b, l),
        a.len() + b.len() + 2 <= i32::MAX,
    ensures
        closed(either_code(a, b), l),
{
    let code = either_code(a, b);
    lemma_embedded(code, a, 1, l);
    lemma_embedded(code, b, (a.len() + 2) as int, l);
    assert forall|i: int| 0 <= i < code.len() implies #[trigger] sound(
        code,
        i,
        code.len() as int,
        l,
    ) by {
        if i == 0 {
        } else if i <= a.len() {
        } else if i == a.len() + 1 {
            assert(code[i] == Inst::Jump((b.len() + 1) as i32));
        } else {
        }
    }
}

/// Closed code, any number of times over, is closed.
pub proof fn lemma_closed_times(code: Seq<Inst>, n: nat, l: Limits)
    requires
        closed(code, l),
    ensures
        closed(times(code, n), l),
    decreases n,
{
    if n > 0 {
        lemma_closed_times(code, (n - 1) as nat, l);
        lemma_closed_concat(times(code, (n - 1) as nat), code, l);
    }
}

/// One repetition of closed code is closed.
pub proof fn lemma_closed_iteration(body: Seq<Inst>, lo: u32, hi: u32, l: Limits)
    requires
        closed(body, l),
        hi <= 2 * l.groups,
    ensures
        closed(iteration(body, lo, hi), l),
{
    if lo < hi {
        lemma_closed_single(Inst::Reset(lo, hi), l);
        lemma_closed_concat(seq![Inst::Reset(lo, hi)], body, l);
    }
}

/// A repetition of closed code that fails if it consumes nothing is
/// closed.
pub proof fn lemma_closed_guarded(it: Seq<Inst>, mark: u32, l: Limits)
    requires
        closed(it, l),
        mark < l.marks,
    ensures
        closed(guarded(it, mark), l),
{
    lemma_closed_single(Inst::Mark(mark), l);
    lemma_closed_single(Inst::Progress(mark), l);
    lemma_closed_concat(seq![Inst::Mark(mark)], it, l);
    lemma_closed_concat(seq![Inst::Mark(mark)] + it, seq![Inst::Progress(mark)], l);
}

/// Any number of repetitions of closed code are closed.
pub proof fn lemma_closed_star(g: Seq<Inst>, greedy: bool, l: Limits)
    requires
        closed(g, l),
        g.len() + 2 <= i32::MAX,
    ensures
        closed(star_code(g, greedy), l),
{
    let code = star_code(g, greedy);
    lemma_embedded(code, g, 1, l);
    assert forall|i: int| 0 <= i < code.len() implies #[trigger] sound(
        code,
        i,
        code.len() as int,
        l,
    ) by {
        if i == 0 {
            assert(code[0] == branch(1, (g.len() + 2) as int, greedy));
        } else if i <= g.len() {
        } else {
            assert(code[i] == Inst::Jump((-(g.len() + 1)) as i32));
        }
    }
}

/// Up to `n` repetitions of closed code are closed, if the first branch
/// leaves to the instruction behind them.
pub proof fn lemma_closed_options(g: Seq<Inst>, n: nat, greedy: bool, l: Limits)
    requires
        closed(g, l),
        n * (g.len() + 1) <= i32::MAX,
    ensures
        options_code(g, n, (n * (g.len() + 1)) as int, greedy).len() == n * (g.len() + 1),
        closed(options_code(g, n, (n * (g.len() + 1)) as int, greedy), l),
    decreases n,
{
    let step = g.len() + 1;
    if n > 0 {
        let m = (n - 1) as nat;
        assert(m * step == n * step - step) by (nonlinear_arith)
            requires
                m == n - 1,
        ;
        assert(m * step >= 0) by (nonlinear_arith)
            requires
                m >= 0,
                step >= 0,
        ;
        lemma_closed_options(g, m, greedy, l);
        let rest = options_code(g, m, (m * step) as int, greedy);
        let code = options_code(g, n, (n * step) as int, greedy);
        assert(code == seq![branch(1, (n * step) as int, greedy)] + g + rest);
        lemma_embedded(code, g, 1, l);
        lemma_embedded(code, rest, (1 + g.len()) as int, l);
        assert forall|i: int| 0 <= i < code.len() implies #[trigger] sound(
            code,
            i,
            code.len() as int,
            l,
        ) by {
            if i == 0 {
                assert(code[0] == branch(1, (n * step) as int, greedy));
            } else if i <= g.len() {
            } else {
            }
        }
    } else {
        assert(0 * step == 0) by (nonlinear_arith);
    }
}

/// The code that repeats closed code is closed.
pub proof fn lemma_closed_repeat(
    body: Seq<Inst>,
    q: Quantifier,
    lo: u32,
    hi: u32,
    mark: u32,
    l: Limits,
)
    requires
        closed(body, l),
        hi <= 2 * l.groups,
        mark < l.marks,
        body.len() + 5 <= i32::MAX,
        extra(q) * (iteration(body, lo, hi).len() + 3) <= i32::MAX,
    ensures
        closed(repeat_code(body, q, lo, hi, mark), l),
{
    reveal(repeat_code);
    let it = iteration(body, lo, hi);
    let g = guarded(it, mark);
    lemma_closed_iteration(body, lo, hi, l);
    lemma_closed_guarded(it, mark, l);
    lemma_closed_times(it, q.min as nat, l);
    match q.max {
        None => {
            lemma_closed_star(g, q.greedy, l);
            lemma_closed_concat(times(it, q.min as nat), star_code(g, q.greedy), l);
        },
        Some(max) => {
            let n = extra(q);
            assert(g.len() + 1 == it.len() + 3);
            lemma_closed_options(g, n, q.greedy, l);
            lemma_closed_concat(
                times(it, q.min as nat),
                options_code(g, n, (n * (g.len() + 1)) as int, q.greedy),
                l,
            );
        },
    }
}

/// Closed code followed by `Accept` is a valid program.
pub proof fn lemma_valid_program(body: Seq<Inst>, l: Limits)
    requires
        closed(body, l),
    ensures
        valid(body.push(Inst::Accept), l),
{
    let code = body.push(Inst::Accept);
    assert(code =~= body + seq![Inst::Accept]);
    lemma_embedded(code, body, 0, l);
    assert forall|i: int| 0 <= i < code.len() implies #[trigger] sound(
        code,
        i,
        code.len() - 1,
        l,
    ) by {
        if i < body.len() {
            assert(sound(body, i, body.len() as int, l));
            assert(code[i] == body[i]);
            match body[i] {
                Inst::Class { negated, count } => {
                    assert forall|k: int| i < k <= i + count implies #[trigger] code[k] is Range
                    by {
                        assert(code[k] == body[k]);
                    }
                },
                _ => {},
            }
        }
    }
}

} // verus!
