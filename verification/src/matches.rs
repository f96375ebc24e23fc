//! The successive matches of a regular expression in a text.

use vstd::prelude::*;
use crate::matched::Match;
use crate::program::ProgramView;
use crate::regex::{find_at_spec, Regex, DEFAULT_BUDGET};
use crate::search::{lemma_search_sound, Groups, MAX_TEXT_LEN};
use crate::text::chars_of;

verus! {

/// What the state of a `Matches` is, as a mathematical value.
pub struct MatchesView {
    /// The program that is run.
    pub program: ProgramView,
    /// The text that is searched.
    pub text: Seq<char>,
    /// The offset at which the next search begins.
    pub last_index: int,
    /// Whether a search has failed: no further match is looked for.
    pub done: bool,
}

/// The offset at which to search after a match from `start` to `end`: its
/// end, or one character further if the match was empty.
pub open spec fn next_index(start: int, end: int) -> int {
    if start == end {
        end + 1
    } else {
        end
    }
}

/// The groups of the successive matches of `p` in `t` that a walk from
/// offset `from` on finds: the match that a search from `from` finds, and
/// then those that a walk finds from the end of that match on, or, if the
/// match is empty, from one character further on.
pub open spec fn matches_from(p: ProgramView, t: Seq<char>, from: int) -> Seq<Groups>
    decreases t.len() + 1 - from,
{
    match find_at_spec(p, t, from) {
        Ok(Some(groups)) => {
            let next = next_index(groups[0].unwrap().0 as int, groups[0].unwrap().1 as int);
            if from < next <= t.len() + 1 {
                seq![groups] + matches_from(p, t, next)
            } else {
                seq![groups]
            }
        },
        _ => Seq::empty(),
    }
}

/// Every match moves the walk forward: the offset at which the next search
/// begins lies behind the one at which this search began, also where the
/// match is empty, and at most one character behind the end of the text.
pub proof fn lemma_walk_advances(p: ProgramView, t: Seq<char>, from: int)
    requires
        p.wf(),
        0 <= from,
        t.len() <= usize::MAX,
    ensures
        find_at_spec(p, t, from) matches Ok(Some(groups)) ==> from < next_index(
            groups[0].unwrap().0 as int,
            groups[0].unwrap().1 as int,
        ) <= t.len() + 1,
{
    lemma_search_sound(p, t, from, DEFAULT_BUDGET as nat);
}

/// A walk finds no more matches than there are offsets left: one for each
/// character from `from` on, and one for the end of the text.
pub proof fn lemma_matches_are_few(p: ProgramView, t: Seq<char>, from: int)
    requires
        0 <= from <= t.len() + 1,
    ensures
        matches_from(p, t, from).len() <= t.len() + 1 - from,
    decreases t.len() + 1 - from,
{
    match find_at_spec(p, t, from) {
        Ok(Some(groups)) => {
            let next = next_index(groups[0].unwrap().0 as int, groups[0].unwrap().1 as int);
            if from < next <= t.len() + 1 {
                lemma_matches_are_few(p, t, next);
            }
        },
        _ => {},
    }
}

/// The groups of each of the matches `v`.
pub open spec fn groups_of_each(v: Seq<Match>) -> Seq<Groups> {
    Seq::new(v.len(), |i: int| v[i]@.groups)
}

/// The successive matches of a regular expression in a text, none of them
/// overlapping another.
#[derive(Debug)]
pub struct Matches<'r, 't> {
    regex: &'r Regex,
    text: &'t str,
    chars: Vec<char>,
    last_index: usize,
    done: bool,
}

impl<'r, 't> View for Matches<'r, 't> {
    type V = MatchesView;

    closed spec fn view(&self) -> MatchesView {
        MatchesView {
            program: self.regex@,
            text: self.text@,
            last_index: self.last_index as int,
            done: self.done,
        }
    }
}

impl<'r, 't> Matches<'r, 't> {
    /// What holds of every state: the characters kept are those of the
    /// text, and the next search begins in the text, at its end, or one
    /// character behind it.
    #[verifier::type_invariant]
    closed spec fn wf(&self) -> bool {
        &&& self.chars@ == self.text@
        &&& self.last_index <= self.text@.len() + 1
    }

    /// The matches of `regex` in `text`, before the first was looked for.
    pub fn new(regex: &'r Regex, text: &'t str) -> (r: Matches<'r, 't>)
        ensures
            r@ == (MatchesView { program: regex@, text: text@, last_index: 0, done: false }),
    {
        Matches { regex, text, chars: chars_of(text), last_index: 0, done: false }
    }

    /// The offset at which the next search begins.
    pub fn last_index(&self) -> (r: usize)
        ensures
            r == self@.last_index,
    {
        self.last_index
    }

    /// Looks for the next match.
    ///
    /// The text is searched from `last_index` on.  After a match,
    /// `last_index` is the end of the match, or one character further if
    /// the match was empty, so that it always grows.  After a search that
    /// found nothing or ended in an error, this and every later call
    /// return `None` and change nothing.
    pub fn next(&mut self) -> (r: Option<Match<'t>>)
        ensures
            final(self)@.program == old(self)@.program,
            final(self)@.text == old(self)@.text,
            final(self)@.last_index <= final(self)@.text.len() + 1,
            old(self)@.done ==> r is None && final(self)@ == old(self)@,
            !old(self)@.done ==> match find_at_spec(
                old(self)@.program,
                old(self)@.text,
                old(self)@.last_index,
            ) {
                Ok(Some(groups)) => {
                    &&& r matches Some(m)
                    &&& m@.groups == groups
                    &&& m@.text == old(self)@.text
                    &&& m@.flags == old(self)@.program.flags
                    &&& m@.wf()
                    &&& old(self)@.last_index <= m@.start()
                    &&& final(self)@.last_index == next_index(m@.start(), m@.end())
                    &&& final(self)@.last_index > old(self)@.last_index
                    &&& !final(self)@.done
                },
                _ => {
                    &&& r is None
                    &&& final(self)@.done
                    &&& final(self)@.last_index == old(self)@.last_index
                },
            },
    {
        proof {
            use_type_invariant(&*self);
        }
        if self.done {
            return None;
        }
        match self.regex.find_in(self.text, &self.chars, self.last_index, DEFAULT_BUDGET) {
            Ok(Some(m)) => {
                let start = m.start();
                let end = m.end();
                assert(end <= MAX_TEXT_LEN) by {
                    assert(find_at_spec(self.regex@, self.text@, self.last_index as int) is Ok);
                }
                self.last_index = if start == end {
                    end + 1
                } else {
                    end
                };
                Some(m)
            },
            _ => {
                self.done = true;
                None
            },
        }
    }

    /// Looks for all the matches that are still to come, and returns them
    /// in the order in which `next` would.
    pub fn rest(&mut self) -> (r: Vec<Match<'t>>)
        ensures
            final(self)@.program == old(self)@.program,
            final(self)@.text == old(self)@.text,
            final(self)@.done,
            groups_of_each(r@) == if old(self)@.done {
                Seq::<Groups>::empty()
            } else {
                matches_from(old(self)@.program, old(self)@.text, old(self)@.last_index)
            },
            forall|i: int|
                0 <= i < r.len() ==> (#[trigger] r[i])@.text == old(self)@.text && r[i]@.wf(),
    {
        proof {
            use_type_invariant(&*self);
        }
        let mut out: Vec<Match<'t>> = Vec::new();
        let ghost goal = if self.done {
            Seq::<Groups>::empty()
        } else {
            matches_from(self@.program, self@.text, self@.last_index)
        };
        assert(groups_of_each(out@) =~= Seq::<Groups>::empty());
        loop
            invariant
                self@.program == old(self)@.program,
                self@.text == old(self)@.text,
                self@.last_index <= self@.text.len() + 1 || self@.done,
                forall|i: int|
                    0 <= i < out.len() ==> (#[trigger] out[i])@.text == old(self)@.text
                        && out[i]@.wf(),
                goal == groups_of_each(out@) + if self@.done {
                    Seq::<Groups>::empty()
                } else {
                    matches_from(self@.program, self@.text, self@.last_index)
                },
            ensures
                self@.done,
                goal == groups_of_each(out@),
            decreases
                    if self@.done {
                        0
                    } else {
                        self@.text.len() + 2 - self@.last_index
                    },
        {
            let ghost before = out@;
            let ghost from = self@.last_index;
            match self.next() {
                Some(m) => {
                    let ghost groups = m@.groups;
                    out.push(m);
                    assert(groups_of_each(out@) =~= groups_of_each(before) + seq![groups]);
                    assert(matches_from(self@.program, self@.text, from) == seq![groups]
                        + matches_from(self@.program, self@.text, self@.last_index));
                },
                None => {
                    assert(groups_of_each(out@) + Seq::<Groups>::empty() =~= groups_of_each(out@));
                    break ;
                },
            }
        }
        out
    }
}

} // verus!
