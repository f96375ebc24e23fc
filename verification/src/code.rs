//! The instructions that each construct of the grammar is compiled to.

use vstd::prelude::*;
use crate::program::Inst;

verus! {

/// The greatest number of instructions a program may have.
pub const MAX_CODE_LEN: usize = 0x1_0000;

/// How often an item may repeat.
#[derive(Clone, Copy, Debug, PartialEq, Eq, Structural)]
pub struct Quantifier {
    /// The least number of repetitions.
    pub min: usize,
    /// The greatest number of repetitions; `None` if there is no limit.
    pub max: Option<usize>,
    /// Whether more repetitions are tried before fewer.
    pub greedy: bool,
}

/// Code that consumes one character, made to consume the character before
/// the position if `back` is set.
pub open spec fn directed(code: Seq<Inst>, back: bool) -> Seq<Inst> {
    if back {
        seq![Inst::Back] + code + seq![Inst::Back]
    } else {
        code
    }
}

/// The code of capturing group `g` around `inner`: the group's two slots
/// are stored in the order in which the text is read.
pub open spec fn group_code(g: int, inner: Seq<Inst>, back: bool) -> Seq<Inst> {
    if back {
        seq![Inst::Save((2 * g + 1) as u32)] + inner + seq![Inst::Save((2 * g) as u32)]
    } else {
        seq![Inst::Save((2 * g) as u32)] + inner + seq![Inst::Save((2 * g + 1) as u32)]
    }
}

/// The code of a lookaround assertion around `inner`.
pub open spec fn look_code(negative: bool, inner: Seq<Inst>) -> Seq<Inst> {
    seq![Inst::Look { negative, end: (inner.len() + 2) as i32 }] + inner + seq![Inst::Accept]
}

/// The code that tries `a` and, if that fails, `b`.
pub open spec fn either_code(a: Seq<Inst>, b: Seq<Inst>) -> Seq<Inst> {
    seq![Inst::Split(1, (a.len() + 2) as i32)] + a + seq![Inst::Jump((b.len() + 1) as i32)] + b
}

/// One repetition of `body`: the slots from `lo` up to `hi`, those of the
/// groups in `body`, are cleared first.
pub open spec fn iteration(body: Seq<Inst>, lo: u32, hi: u32) -> Seq<Inst> {
    if lo < hi {
        seq![Inst::Reset(lo, hi)] + body
    } else {
        body
    }
}

/// A repetition that fails if it consumes nothing.
pub open spec fn guarded(it: Seq<Inst>, mark: u32) -> Seq<Inst> {
    seq![Inst::Mark(mark)] + it + seq![Inst::Progress(mark)]
}

/// The branch that enters a repetition at distance `enter` or leaves at
/// distance `leave`: a greedy one tries to enter first.
pub open spec fn branch(enter: int, leave: int, greedy: bool) -> Inst {
    if greedy {
        Inst::Split(enter as i32, leave as i32)
    } else {
        Inst::Split(leave as i32, enter as i32)
    }
}

/// `code`, `n` times over.
pub open spec fn times(code: Seq<Inst>, n: nat) -> Seq<Inst>
    decreases n,
{
    if n == 0 {
        Seq::empty()
    } else {
        times(code, (n - 1) as nat) + code
    }
}

/// Any number of repetitions of `g`.
pub open spec fn star_code(g: Seq<Inst>, greedy: bool) -> Seq<Inst> {
    seq![branch(1, (g.len() + 2) as int, greedy)] + g + seq![Inst::Jump((-(g.len() + 1)) as i32)]
}

/// Up to `n` repetitions of `g`, where `leave` is the distance from the
/// first instruction to the one after the last.
pub open spec fn options_code(g: Seq<Inst>, n: nat, leave: int, greedy: bool) -> Seq<Inst>
    decreases n,
{
    if n == 0 {
        Seq::empty()
    } else {
        seq![branch(1, leave, greedy)] + g + options_code(
            g,
            (n - 1) as nat,
            leave - (g.len() + 1),
            greedy,
        )
    }
}

/// The code that repeats `body` as `q` says.  `lo` and `hi` bound the slots
/// of the groups in `body`, and `mark` is a slot of its own for this
/// repetition.
///
/// The repetitions that must take place come first.  Those that may follow
/// each begin with a branch, and each fails if it consumes nothing.
#[verifier::opaque]
pub open spec fn repeat_code(body: Seq<Inst>, q: Quantifier, lo: u32, hi: u32, mark: u32) -> Seq<
    Inst,
> {
    let it = iteration(body, lo, hi);
    let g = guarded(it, mark);
    times(it, q.min as nat) + match q.max {
        None => star_code(g, q.greedy),
        Some(max) => options_code(g, extra(q), (extra(q) * (g.len() + 1)) as int, q.greedy),
    }
}

/// The number of repetitions that may follow those that must take place,
/// where that number is limited.
pub open spec fn extra(q: Quantifier) -> nat {
    match q.max {
        Some(max) if max >= q.min => (max - q.min) as nat,
        _ => 0,
    }
}

/// The number of instructions of `repeat_code`.
#[verifier::opaque]
pub open spec fn repeat_len(body_len: int, q: Quantifier, lo: u32, hi: u32) -> int {
    let it = if lo < hi {
        body_len + 1
    } else {
        body_len
    };
    q.min * it + match q.max {
        None => it + 4,
        Some(_) => extra(q) * (it + 3),
    }
}

/// The length of `times`.
pub proof fn lemma_times_len(code: Seq<Inst>, n: nat)
    ensures
        times(code, n).len() == n * code.len(),
    decreases n,
{
    if n > 0 {
        lemma_times_len(code, (n - 1) as nat);
        assert(n * code.len() == (n - 1) * code.len() + code.len()) by (nonlinear_arith);
    } else {
        assert(0 * code.len() == 0) by (nonlinear_arith);
    }
}

/// The length of `options_code`.
pub proof fn lemma_options_len(g: Seq<Inst>, n: nat, leave: int, greedy: bool)
    ensures
        options_code(g, n, leave, greedy).len() == n * (g.len() + 1),
    decreases n,
{
    if n > 0 {
        lemma_options_len(g, (n - 1) as nat, leave - (g.len() + 1), greedy);
        assert(n * (g.len() + 1) == (n - 1) * (g.len() + 1) + (g.len() + 1)) by (nonlinear_arith);
    } else {
        assert(0 * (g.len() + 1) == 0) by (nonlinear_arith);
    }
}

/// The length of `repeat_code`.
pub proof fn lemma_repeat_len(body: Seq<Inst>, q: Quantifier, lo: u32, hi: u32, mark: u32)
    ensures
        repeat_code(body, q, lo, hi, mark).len() == repeat_len(body.len() as int, q, lo, hi),
{
    reveal(repeat_code);
    reveal(repeat_len);
    let it = iteration(body, lo, hi);
    let g = guarded(it, mark);
    let l = it.len() as int;
    lemma_times_len(it, q.min as nat);
    assert(l == if lo < hi {
        body.len() as int + 1
    } else {
        body.len() as int
    });
    assert(times(it, q.min as nat).len() == q.min * l);
    assert(g.len() == l + 2);
    match q.max {
        None => {
            assert(star_code(g, q.greedy).len() == l + 4);
        },
        Some(max) => {
            let n = extra(q);
            lemma_options_len(g, n, (n * (g.len() + 1)) as int, q.greedy);
            assert(options_code(g, n, (n * (g.len() + 1)) as int, q.greedy).len() == n * (l + 3));
        },
    }
}

/// Appends a copy of `src` to `out`.
pub(crate) fn append_all(out: &mut Vec<Inst>, src: &Vec<Inst>)
    ensures
        final(out)@ == old(out)@ + src@,
{
    let mut i: usize = 0;
    while i < src.len()
        invariant
            i <= src.len(),
            out@ == old(out)@ + src@.take(i as int),
        decreases src.len() - i,
    {
        out.push(src[i]);
        i = i + 1;
        assert(out@ =~= old(out)@ + src@.take(i as int));
    }
    assert(src@.take(src.len() as int) =~= src@);
}

/// Makes code that consumes one character consume the one before the
/// position if `back` is set.
pub(crate) fn make_directed(code: Vec<Inst>, back: bool) -> (r: Vec<Inst>)
    ensures
        r@ == directed(code@, back),
{
    if back {
        let mut code = code;
        let ghost before = code@;
        code.insert(0, Inst::Back);
        code.push(Inst::Back);
        assert(code@ =~= directed(before, back));
        code
    } else {
        code
    }
}

/// The code of capturing group `g` around `inner`.
pub(crate) fn make_group(g: usize, inner: Vec<Inst>, back: bool) -> (r: Vec<Inst>)
    requires
        g < 0x1_0000,
    ensures
        r@ == group_code(g as int, inner@, back),
{
    let mut code = inner;
    let first: u32 = (2 * g) as u32;
    if back {
        code.insert(0, Inst::Save(first + 1));
        code.push(Inst::Save(first));
    } else {
        code.insert(0, Inst::Save(first));
        code.push(Inst::Save(first + 1));
    }
    assert(code@ =~= group_code(g as int, inner@, back));
    code
}

/// The code of a lookaround assertion around `inner`.
pub(crate) fn make_look(negative: bool, inner: Vec<Inst>) -> (r: Vec<Inst>)
    requires
        inner.len() <= MAX_CODE_LEN,
    ensures
        r@ == look_code(negative, inner@),
{
    let mut code = inner;
    let end: i32 = (code.len() + 2) as i32;
    code.insert(0, Inst::Look { negative, end });
    code.push(Inst::Accept);
    assert(code@ =~= look_code(negative, inner@));
    code
}

/// The code that tries `a` and, if that fails, `b`.
pub(crate) fn make_either(a: &Vec<Inst>, b: &Vec<Inst>) -> (r: Vec<Inst>)
    requires
        a.len() <= MAX_CODE_LEN,
        b.len() <= MAX_CODE_LEN,
    ensures
        r@ == either_code(a@, b@),
{
    let mut code: Vec<Inst> = Vec::new();
    code.push(Inst::Split(1, (a.len() + 2) as i32));
    append_all(&mut code, a);
    code.push(Inst::Jump((b.len() + 1) as i32));
    append_all(&mut code, b);
    assert(code@ =~= either_code(a@, b@));
    code
}

/// The branch that enters a repetition or leaves it.
fn make_branch(enter: i32, leave: i32, greedy: bool) -> (r: Inst)
    ensures
        r == branch(enter as int, leave as int, greedy),
{
    if greedy {
        Inst::Split(enter, leave)
    } else {
        Inst::Split(leave, enter)
    }
}

/// The code that repeats `body` as `q` says, or `None` if it would have
/// more than `MAX_CODE_LEN` instructions.
pub(crate) fn make_repeat(
    body: &Vec<Inst>,
    q: Quantifier,
    lo: u32,
    hi: u32,
    mark: u32,
) -> (r: Option<Vec<Inst>>)
    requires
        body.len() <= MAX_CODE_LEN,
        q.min <= 0x2_0000,
        q.max matches Some(max) ==> q.min <= max <= 0x2_0000,
    ensures
        match r {
            Some(code) => code@ == repeat_code(body@, q, lo, hi, mark) && code.len()
                <= MAX_CODE_LEN && repeat_len(body.len() as int, q, lo, hi) <= MAX_CODE_LEN,
            None => repeat_len(body.len() as int, q, lo, hi) > MAX_CODE_LEN,
        },
{
    proof {
        reveal(repeat_code);
        reveal(repeat_len);
        lemma_repeat_len(body@, q, lo, hi, mark);
    }
    let mut it: Vec<Inst> = Vec::new();
    if lo < hi {
        it.push(Inst::Reset(lo, hi));
    }
    append_all(&mut it, body);
    assert(it@ =~= iteration(body@, lo, hi));
    let it_len: u64 = it.len() as u64;
    let more: u64 = match q.max {
        None => 0,
        Some(max) => (max - q.min) as u64,
    };
    assert(q.min * it_len <= 0x2_0000 * 0x1_0001) by (nonlinear_arith)
        requires
            q.min <= 0x2_0000,
            it_len <= 0x1_0001,
    ;
    assert(more * (it_len + 3) <= 0x2_0000 * 0x1_0004) by (nonlinear_arith)
        requires
            more <= 0x2_0000,
            it_len <= 0x1_0001,
    ;
    let fixed: u64 = (q.min as u64) * it_len;
    let rest: u64 = match q.max {
        None => it_len + 4,
        Some(_) => more * (it_len + 3),
    };
    if fixed + rest > MAX_CODE_LEN as u64 {
        return None;
    }
    let mut g: Vec<Inst> = Vec::new();
    g.push(Inst::Mark(mark));
    append_all(&mut g, &it);
    g.push(Inst::Progress(mark));
    assert(g@ =~= guarded(it@, mark));
    let mut code: Vec<Inst> = Vec::new();
    let mut k: usize = 0;
    while k < q.min
        invariant
            k <= q.min,
            code@ == times(it@, k as nat),
        decreases q.min - k,
    {
        append_all(&mut code, &it);
        k = k + 1;
    }
    let ghost head = code@;
    match q.max {
        None => {
            let leave: i32 = (g.len() + 2) as i32;
            let again: i32 = -((g.len() + 1) as i32);
            code.push(make_branch(1, leave, q.greedy));
            append_all(&mut code, &g);
            code.push(Inst::Jump(again));
            assert(code@ =~= head + star_code(g@, q.greedy));
        },
        Some(max) => {
            let n: usize = max - q.min;
            let step: usize = g.len() + 1;
            let mut left: usize = n;
            let mut leave: usize = rest as usize;
            assert(n == extra(q) && step == it_len + 3);
            let ghost tail = options_code(g@, n as nat, leave as int, q.greedy);
            while left > 0
                invariant
                    step == g.len() + 1,
                    leave <= MAX_CODE_LEN,
                    leave == left * step,
                    code@ + options_code(g@, left as nat, leave as int, q.greedy) == head + tail,
                decreases left,
            {
                let ghost before = code@;
                assert(leave >= step) by (nonlinear_arith)
                    requires
                        leave == left * step,
                        left > 0,
                ;
                assert((left - 1) * step == leave - step) by (nonlinear_arith)
                    requires
                        leave == left * step,
                ;
                code.push(make_branch(1, leave as i32, q.greedy));
                append_all(&mut code, &g);
                proof {
                    let next = options_code(
                        g@,
                        (left - 1) as nat,
                        leave - step,
                        q.greedy,
                    );
                    assert(code@ + next =~= before + (seq![branch(1, leave as int, q.greedy)] + g@
                        + next));
                }
                leave = leave - step;
                left = left - 1;
            }
            assert(code@ =~= head + tail);
        },
    }
    Some(code)
}

} // verus!
