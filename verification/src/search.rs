//! Finding the leftmost match of a program in a text.

use vstd::prelude::*;
use crate::error::ExecError;
use crate::program::{Program, ProgramView};
use crate::text::chars_of;
use crate::vm::{execute, lemma_run_more_fuel, run, span, span_of, Cursor, Outcome, Ran};

verus! {

/// The groups of a match, the whole match first: for each the offsets of
/// its first character and of the character after its last, or `None` if
/// the group took no part in the match.
pub type Groups = Seq<Option<(usize, usize)>>;

/// The greatest number of characters a text may have.
pub const MAX_TEXT_LEN: usize = 0x7fff_ffff;

/// `n` slots that hold nothing.
pub open spec fn unset(n: nat) -> Seq<Option<usize>> {
    Seq::new(n, |i: int| None)
}

/// The groups of a match from `start` to `end` that left `slots` behind.
pub open spec fn groups_of(
    slots: Seq<Option<usize>>,
    groups: nat,
    start: int,
    end: int,
    len: int,
) -> Groups {
    Seq::new(
        groups,
        |g: int|
            if g == 0 {
                Some((start as usize, end as usize))
            } else {
                span_of(slots, g, len)
            },
    )
}

/// The leftmost match of `p` in `t` that begins at `start` or later, found
/// with at most `fuel` steps.
///
/// The offsets are tried in order from `start` to the length of the text,
/// each with slots that hold nothing and with the steps the earlier ones
/// have left; the first at which the program accepts gives the match.  A
/// sticky program is tried at `start` alone.  A run that accepts before
/// the offset it was started at counts as a failure.
pub open spec fn search(p: ProgramView, t: Seq<char>, start: int, fuel: nat) -> Result<
    Option<Groups>,
    ExecError,
>
    decreases t.len() + 1 - start,
{
    if start > t.len() {
        Ok(None)
    } else {
        let ran = run(
            p.insts,
            p.flags,
            t,
            Cursor { pc: 0, pos: start, slots: unset(p.slots) },
            fuel,
        );
        match ran.0 {
            Outcome::Exhausted => Err(ExecError::ExecutionLimitExceeded),
            Outcome::Accepted(slots, end) if start <= end <= t.len() => Ok(
                Some(groups_of(slots, p.groups, start, end, t.len() as int)),
            ),
            _ => if p.flags.sticky {
                Ok(None)
            } else {
                search(p, t, start + 1, ran.1)
            },
        }
    }
}

/// What executing `p` on `t` from offset `index` with `budget` steps
/// yields.
pub open spec fn exec_spec(p: ProgramView, t: Seq<char>, index: int, budget: nat) -> Result<
    Option<Groups>,
    ExecError,
> {
    if index > t.len() {
        Err(ExecError::IndexOutOfRange)
    } else if t.len() > MAX_TEXT_LEN {
        Err(ExecError::TextTooLong)
    } else {
        search(p, t, index, budget)
    }
}

/// The mathematical value of an executor's result.
pub open spec fn found_view(r: Result<Option<Vec<Option<(usize, usize)>>>, ExecError>) -> Result<
    Option<Groups>,
    ExecError,
> {
    match r {
        Ok(Some(v)) => Ok(Some(v@)),
        Ok(None) => Ok(None),
        Err(e) => Err(e),
    }
}

/// Whether `groups` are the groups of a match in a text of `len`
/// characters: there is a whole match, and every span lies in the text
/// with its start not behind its end.
pub open spec fn groups_wf(groups: Groups, len: int) -> bool {
    &&& groups.len() >= 1
    &&& groups[0] is Some
    &&& forall|g: int|
        0 <= g < groups.len() ==> (#[trigger] groups[g] matches Some((s, e)) ==> s <= e <= len)
}

/// A match that a search reports lies in the text, begins at the offset
/// the search began at or later, and has one entry for each group of the
/// program.  A sticky program matches at that offset only.
pub proof fn lemma_search_sound(p: ProgramView, t: Seq<char>, start: int, fuel: nat)
    requires
        p.wf(),
        0 <= start,
        t.len() <= usize::MAX,
    ensures
        search(p, t, start, fuel) matches Ok(Some(groups)) ==> {
            &&& groups_wf(groups, t.len() as int)
            &&& groups.len() == p.groups
            &&& start <= groups[0].unwrap().0
            &&& p.flags.sticky ==> groups[0].unwrap().0 == start
        },
    decreases t.len() + 1 - start,
{
    if start <= t.len() {
        let ran = run(
            p.insts,
            p.flags,
            t,
            Cursor { pc: 0, pos: start, slots: unset(p.slots) },
            fuel,
        );
        match ran.0 {
            Outcome::Exhausted => {},
            Outcome::Accepted(slots, end) => {
                if start <= end <= t.len() {
                } else if !p.flags.sticky {
                    lemma_search_sound(p, t, start + 1, ran.1);
                }
            },
            Outcome::Failed => {
                if !p.flags.sticky {
                    lemma_search_sound(p, t, start + 1, ran.1);
                }
            },
        }
    }
}

/// A search that was decided with the steps it was given is decided the
/// same way with more: the budget settles whether there is an answer, never
/// which.
pub proof fn lemma_search_more_fuel(p: ProgramView, t: Seq<char>, start: int, fuel: nat, more: nat)
    requires
        search(p, t, start, fuel) is Ok,
    ensures
        search(p, t, start, fuel + more) == search(p, t, start, fuel),
    decreases t.len() + 1 - start,
{
    if start <= t.len() {
        let c = Cursor { pc: 0, pos: start, slots: unset(p.slots) };
        let ran = run(p.insts, p.flags, t, c, fuel);
        lemma_run_more_fuel(p.insts, p.flags, t, c, fuel, more);
        match ran.0 {
            Outcome::Exhausted => {},
            Outcome::Accepted(slots, end) => {
                if !(start <= end <= t.len()) && !p.flags.sticky {
                    lemma_search_more_fuel(p, t, start + 1, ran.1, more);
                }
            },
            Outcome::Failed => {
                if !p.flags.sticky {
                    lemma_search_more_fuel(p, t, start + 1, ran.1, more);
                }
            },
        }
    }
}

/// An answer that a budget sufficed for is the answer for every larger
/// budget too.  So the one error that a larger budget can mend is
/// `ExecutionLimitExceeded`, and a match or the absence of one, once
/// reported, does not depend on the budget.
pub proof fn lemma_budget_only_limits(
    p: ProgramView,
    t: Seq<char>,
    index: int,
    budget: nat,
    larger: nat,
)
    requires
        budget <= larger,
        exec_spec(p, t, index, budget) != Err::<Option<Groups>, ExecError>(
            ExecError::ExecutionLimitExceeded,
        ),
    ensures
        exec_spec(p, t, index, larger) == exec_spec(p, t, index, budget),
{
    if index <= t.len() && t.len() <= MAX_TEXT_LEN {
        lemma_search_errors(p, t, index, budget);
        lemma_search_more_fuel(p, t, index, budget, (larger - budget) as nat);
    }
}

/// The one error of a search is that the steps ran out.
pub proof fn lemma_search_errors(p: ProgramView, t: Seq<char>, start: int, fuel: nat)
    ensures
        search(p, t, start, fuel) matches Err(e) ==> e == ExecError::ExecutionLimitExceeded,
    decreases t.len() + 1 - start,
{
    if start <= t.len() {
        let ran = run(
            p.insts,
            p.flags,
            t,
            Cursor { pc: 0, pos: start, slots: unset(p.slots) },
            fuel,
        );
        if !p.flags.sticky {
            lemma_search_errors(p, t, start + 1, ran.1);
        }
    }
}

/// `n` slots that hold nothing.
fn unset_slots(n: usize) -> (r: Vec<Option<usize>>)
    ensures
        r@ == unset(n as nat),
{
    let mut r: Vec<Option<usize>> = Vec::new();
    let mut i: usize = 0;
    while i < n
        invariant
            i <= n,
            r@ == unset(i as nat),
        decreases n - i,
    {
        r.push(None);
        i = i + 1;
        assert(r@ =~= unset(i as nat));
    }
    r
}

/// The groups of a match from `start` to `end` that left `slots` behind.
fn collect_groups(
    slots: &Vec<Option<usize>>,
    groups: usize,
    start: usize,
    end: usize,
    len: usize,
) -> (r: Vec<Option<(usize, usize)>>)
    ensures
        r@ == groups_of(slots@, groups as nat, start as int, end as int, len as int),
{
    let mut r: Vec<Option<(usize, usize)>> = Vec::new();
    let mut g: usize = 0;
    while g < groups
        invariant
            g <= groups,
            r.len() == g,
            forall|k: int|
                0 <= k < g ==> r[k] == groups_of(
                    slots@,
                    groups as nat,
                    start as int,
                    end as int,
                    len as int,
                )[k],
        decreases groups - g,
    {
        if g == 0 {
            r.push(Some((start, end)));
        } else {
            r.push(span(slots, g, len));
        }
        g = g + 1;
    }
    assert(r@ =~= groups_of(slots@, groups as nat, start as int, end as int, len as int));
    r
}

/// Executes `program` on the characters `t` from offset `index` with
/// `budget` steps.
pub(crate) fn exec_chars(program: &Program, t: &Vec<char>, index: usize, budget: u64) -> (r: Result<
    Option<Vec<Option<(usize, usize)>>>,
    ExecError,
>)
    ensures
        found_view(r) == exec_spec(program@, t@, index as int, budget as nat),
        r matches Ok(Some(groups)) ==> {
            &&& groups_wf(groups@, t.len() as int)
            &&& groups.len() == program@.groups
            &&& index <= groups[0].unwrap().0
            &&& program@.flags.sticky ==> groups[0].unwrap().0 == index
        },
{
    proof {
        use_type_invariant(program);
    }
    if index > t.len() {
        return Err(ExecError::IndexOutOfRange);
    }
    if t.len() > MAX_TEXT_LEN {
        return Err(ExecError::TextTooLong);
    }
    let insts = program.insts();
    let flags = program.flags();
    let sticky = program.flags().sticky;
    let mut at: usize = index;
    let mut fuel: u64 = budget;
    loop
        invariant
            insts@ == program@.insts,
            flags == program@.flags,
            sticky == program@.flags.sticky,
            t.len() <= MAX_TEXT_LEN,
            index <= t.len(),
            index <= at <= t.len() + 1,
            search(program@, t@, at as int, fuel as nat) == search(
                program@,
                t@,
                index as int,
                budget as nat,
            ),
        decreases t.len() + 1 - at,
    {
        proof {
            use_type_invariant(program);
            lemma_search_sound(program@, t@, index as int, budget as nat);
        }
        if at > t.len() {
            return Ok(None);
        }
        let ran = execute(insts, flags, t, 0, at, unset_slots(program.slot_count()), &mut fuel);
        match ran {
            Ran::Exhausted => {
                return Err(ExecError::ExecutionLimitExceeded);
            },
            Ran::Accepted(slots, end) => {
                if at <= end {
                    let groups = collect_groups(&slots, program.group_count(), at, end, t.len());
                    return Ok(Some(groups));
                }
            },
            Ran::Failed => {},
        }
        if sticky {
            return Ok(None);
        }
        at = at + 1;
    }
}

/// Executes `program` on `text`: looks for the leftmost match that begins
/// at character offset `index` or later, spending at most `budget` steps.
///
/// Returns the groups of the match, `None` if there is no match, and an
/// error if `index` lies behind the end of the text, if the text is too
/// long, or if the budget ran out before the answer was known.
pub fn exec(program: &Program, text: &str, index: usize, budget: u64) -> (r: Result<
    Option<Vec<Option<(usize, usize)>>>,
    ExecError,
>)
    ensures
        found_view(r) == exec_spec(program@, text@, index as int, budget as nat),
        r matches Ok(Some(groups)) ==> {
            &&& groups_wf(groups@, text@.len() as int)
            &&& groups.len() == program@.groups
            &&& index <= groups[0].unwrap().0
            &&& program@.flags.sticky ==> groups[0].unwrap().0 == index
        },
{
    let t = chars_of(text);
    exec_chars(program, &t, index, budget)
}

} // verus!
