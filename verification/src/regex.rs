//! A compiled regular expression and the searches it offers.

use vstd::prelude::*;
use crate::compiler::{compile, compile_spec};
use crate::error::{Error, ExecError};
use crate::flags::Flags;
use crate::matched::{Match, MatchView};
use crate::matches::Matches;
use crate::program::{Program, ProgramView};
use crate::search::{exec_chars, exec_spec, found_view, groups_wf, Groups};
use crate::text::chars_of;

verus! {

/// The steps that a search through a `Regex` may take where no budget is
/// given: more than any search that comes to an end in a lifetime takes.
pub const DEFAULT_BUDGET: u64 = 0xffff_ffff_ffff_ffff;

/// A compiled regular expression.
#[derive(Debug, Hash, PartialEq, Eq)]
pub struct Regex {
    program: Program,
}

impl View for Regex {
    type V = ProgramView;

    closed spec fn view(&self) -> ProgramView {
        self.program@
    }
}

impl Clone for Regex {
    fn clone(&self) -> (r: Regex)
        ensures
            r@ == self@,
    {
        Regex { program: self.program.clone() }
    }
}

/// What building a regular expression from `pattern` and `flags` gives, as
/// the program it holds.
pub open spec fn regex_spec(pattern: Seq<char>, flags: Flags) -> Result<ProgramView, Error> {
    match compile_spec(pattern, flags) {
        Ok(p) => Ok(p),
        Err(e) => Err(Error::spec_from_compile(e)),
    }
}

/// The mathematical value of what building a regular expression gave.
pub open spec fn built_view(r: Result<Regex, Error>) -> Result<ProgramView, Error> {
    match r {
        Ok(re) => Ok(re@),
        Err(e) => Err(e),
    }
}

/// The mathematical value of what a search for a match gave.
pub open spec fn match_view(r: Result<Option<Match>, ExecError>) -> Result<
    Option<Groups>,
    ExecError,
> {
    match r {
        Ok(Some(m)) => Ok(Some(m@.groups)),
        Ok(None) => Ok(None),
        Err(e) => Err(e),
    }
}

/// The groups of the leftmost match of `p` in `t` that begins at `start`
/// or later, found with the default budget.
pub open spec fn find_at_spec(p: ProgramView, t: Seq<char>, start: int) -> Result<
    Option<Groups>,
    ExecError,
> {
    exec_spec(p, t, start, DEFAULT_BUDGET as nat)
}

/// The groups of the leftmost match of `p` in `t`; `None` also where the
/// search gave an error.
pub open spec fn find_spec(p: ProgramView, t: Seq<char>, start: int) -> Option<Groups> {
    match find_at_spec(p, t, start) {
        Ok(found) => found,
        Err(_) => None,
    }
}

impl Regex {
    /// Compiles `pat` without flags.
    pub fn new(pat: &str) -> (r: Result<Regex, Error>)
        ensures
            built_view(r) == regex_spec(pat@, Flags::empty()),
    {
        Regex::with_flags(pat, Flags::empty())
    }

    /// Compiles `pat` with `flags`.
    pub fn with_flags(pat: &str, flags: Flags) -> (r: Result<Regex, Error>)
        ensures
            built_view(r) == regex_spec(pat@, flags),
    {
        match compile(pat, flags) {
            Ok(program) => Ok(Regex { program }),
            Err(e) => Err(Error::from_compile(e)),
        }
    }

    /// The program that the pattern was compiled to.
    pub fn program(&self) -> (r: &Program)
        ensures
            r@ == self@,
    {
        &self.program
    }

    /// Runs the program on `text` from offset `index` with the default
    /// budget, and returns the spans of the groups of the match.
    pub fn exec(&self, text: &str, index: usize) -> (r: Result<
        Option<Vec<Option<(usize, usize)>>>,
        ExecError,
    >)
        ensures
            found_view(r) == find_at_spec(self@, text@, index as int),
            r matches Ok(Some(groups)) ==> groups_wf(groups@, text@.len() as int),
    {
        let t = chars_of(text);
        exec_chars(&self.program, &t, index, DEFAULT_BUDGET)
    }

    /// Searches the characters `t` of `text` from offset `start` with at
    /// most `budget` steps.
    pub(crate) fn find_in<'t>(
        &self,
        text: &'t str,
        t: &Vec<char>,
        start: usize,
        budget: u64,
    ) -> (r: Result<Option<Match<'t>>, ExecError>)
        requires
            t@ == text@,
        ensures
            match_view(r) == exec_spec(self@, text@, start as int, budget as nat),
            r matches Ok(Some(m)) ==> {
                &&& m@.text == text@
                &&& m@.flags == self@.flags
                &&& m@.wf()
                &&& start <= m@.start()
                &&& self@.flags.sticky ==> m@.start() == start
            },
    {
        match exec_chars(&self.program, t, start, budget) {
            Ok(Some(groups)) => Ok(Some(Match::from_groups(text, groups, self.program.flags()))),
            Ok(None) => Ok(None),
            Err(e) => Err(e),
        }
    }

    /// Searches `text` for the leftmost match that begins at character
    /// offset `start` or later.
    ///
    /// Returns `IndexOutOfRange` if `start` lies behind the end of the
    /// text.  A sticky expression matches at `start` or not at all.
    pub fn find_at<'t>(&self, text: &'t str, start: usize) -> (r: Result<
        Option<Match<'t>>,
        ExecError,
    >)
        ensures
            match_view(r) == find_at_spec(self@, text@, start as int),
            start > text@.len() ==> r == Err::<Option<Match<'t>>, ExecError>(
                ExecError::IndexOutOfRange,
            ),
            r matches Ok(Some(m)) ==> {
                &&& m@.text == text@
                &&& m@.flags == self@.flags
                &&& m@.wf()
                &&& start <= m@.start()
                &&& self@.flags.sticky ==> m@.start() == start
            },
    {
        let t = chars_of(text);
        self.find_in(text, &t, start, DEFAULT_BUDGET)
    }

    /// Searches `text` as `find_at` does, with at most `budget` steps.
    ///
    /// Returns `ExecutionLimitExceeded` if the steps run out before the
    /// search is decided; a larger budget then gives the answer, and a
    /// budget that gives an answer gives the answer of every larger one.
    pub fn find_at_within<'t>(&self, text: &'t str, start: usize, budget: u64) -> (r: Result<
        Option<Match<'t>>,
        ExecError,
    >)
        ensures
            match_view(r) == exec_spec(self@, text@, start as int, budget as nat),
            start > text@.len() ==> r == Err::<Option<Match<'t>>, ExecError>(
                ExecError::IndexOutOfRange,
            ),
            r matches Ok(Some(m)) ==> {
                &&& m@.text == text@
                &&& m@.flags == self@.flags
                &&& m@.wf()
                &&& start <= m@.start()
                &&& self@.flags.sticky ==> m@.start() == start
            },
    {
        let t = chars_of(text);
        self.find_in(text, &t, start, budget)
    }

    /// Searches `text` for the leftmost match.  A search that ends in an
    /// error gives `None`: one of a text that is too long, or one that
    /// would take more steps than `DEFAULT_BUDGET`.
    pub fn find<'t>(&self, text: &'t str) -> (r: Option<Match<'t>>)
        ensures
            match r {
                Some(m) => find_spec(self@, text@, 0) == Some(m@.groups) && m@.text == text@
                    && m@.flags == self@.flags && m@.wf(),
                None => find_spec(self@, text@, 0) is None,
            },
    {
        match self.find_at(text, 0) {
            Ok(found) => found,
            Err(_) => None,
        }
    }

    /// Whether `text` holds a match: whether `find` finds one.
    pub fn is_match(&self, text: &str) -> (r: bool)
        ensures
            r == find_spec(self@, text@, 0).is_some(),
    {
        self.is_match_at(text, 0)
    }

    /// Whether `text` holds a match that begins at offset `index` or
    /// later.  A search that ends in an error gives `false`.
    pub fn is_match_at(&self, text: &str, index: usize) -> (r: bool)
        ensures
            r == find_spec(self@, text@, index as int).is_some(),
    {
        match self.exec(text, index) {
            Ok(Some(_)) => true,
            _ => false,
        }
    }

    /// The matches of the expression in `text`, one after the other.
    pub fn find_iter<'r, 't>(&'r self, text: &'t str) -> (r: Matches<'r, 't>)
        ensures
            r@.program == self@,
            r@.text == text@,
            r@.last_index == 0,
            !r@.done,
    {
        Matches::new(self, text)
    }
}

/// `is_match` and `find` agree: on every expression and text, the first
/// returns `true` exactly when the second returns a match.
pub proof fn lemma_is_match_agrees_with_find(
    p: ProgramView,
    text: Seq<char>,
    matched: bool,
    found: Option<MatchView>,
)
    requires
        matched == find_spec(p, text, 0).is_some(),
        match found {
            Some(m) => find_spec(p, text, 0) == Some(m.groups),
            None => find_spec(p, text, 0) is None,
        },
    ensures
        matched == found.is_some(),
{
}

/// A search that starts behind the end of the text gives
/// `IndexOutOfRange`, whatever the expression.
pub proof fn lemma_start_out_of_range(p: ProgramView, text: Seq<char>, start: int)
    requires
        start > text.len(),
    ensures
        find_at_spec(p, text, start) == Err::<Option<Groups>, ExecError>(
            ExecError::IndexOutOfRange,
        ),
        find_spec(p, text, start) is None,
{
}

} // verus!
