//! A match: the text that was searched and the spans that the groups of
//! the pattern took in it.

use vstd::prelude::*;
use crate::flags::Flags;
use crate::search::{groups_wf, Groups};

verus! {

/// What a match is, as a mathematical value.
pub struct MatchView {
    /// The text that was searched.
    pub text: Seq<char>,
    /// The span of each group, the whole match first.
    pub groups: Groups,
    /// The flags of the expression that matched.
    pub flags: Flags,
}

impl MatchView {
    /// What holds of every match: there is a whole match, and every span
    /// lies in the text with its start not behind its end.
    pub open spec fn wf(self) -> bool {
        groups_wf(self.groups, self.text.len() as int)
    }

    /// The offset of the first character of the match.
    pub open spec fn start(self) -> int {
        self.groups[0].unwrap().0 as int
    }

    /// The offset of the character behind the last of the match.
    pub open spec fn end(self) -> int {
        self.groups[0].unwrap().1 as int
    }

    /// The text of the match.
    pub open spec fn matched(self) -> Seq<char> {
        self.text.subrange(self.start(), self.end())
    }

    /// The text of group `i`; `None` if there is no such group or it took
    /// no part in the match.
    pub open spec fn group(self, i: int) -> Option<Seq<char>> {
        if 0 <= i < self.groups.len() {
            match self.groups[i] {
                Some((s, e)) => Some(self.text.subrange(s as int, e as int)),
                None => None,
            }
        } else {
            None
        }
    }
}

/// A match of a regular expression in a text.
///
/// Offsets count characters from the start of the text.
#[derive(Debug, PartialEq, Eq)]
pub struct Match<'t> {
    text: &'t str,
    groups: Vec<Option<(usize, usize)>>,
    flags: Flags,
}

impl<'t> View for Match<'t> {
    type V = MatchView;

    closed spec fn view(&self) -> MatchView {
        MatchView { text: self.text@, groups: self.groups@, flags: self.flags }
    }
}

/// The mathematical value of the text of a group.
pub open spec fn text_view(r: Option<&str>) -> Option<Seq<char>> {
    match r {
        Some(s) => Some(s@),
        None => None,
    }
}

impl<'t> Match<'t> {
    /// What holds of every match.
    #[verifier::type_invariant]
    pub open spec fn wf(&self) -> bool {
        self@.wf()
    }

    /// The match in `text` of an expression with the flags `flags` whose
    /// groups took the spans `groups`.
    pub(crate) fn from_groups(
        text: &'t str,
        groups: Vec<Option<(usize, usize)>>,
        flags: Flags,
    ) -> (m: Match<'t>)
        requires
            groups_wf(groups@, text@.len() as int),
        ensures
            m@ == (MatchView { text: text@, groups: groups@, flags }),
    {
        Match { text, groups, flags }
    }

    /// The flags of the expression that matched.
    pub fn flags(&self) -> (r: Flags)
        ensures
            r == self@.flags,
    {
        self.flags
    }

    /// The offset of the first character of the match.
    pub fn start(&self) -> (r: usize)
        ensures
            self@.wf(),
            r == self@.start(),
    {
        proof {
            use_type_invariant(self);
        }
        match self.groups[0] {
            Some((s, _)) => s,
            None => 0,
        }
    }

    /// The offset of the character behind the last of the match.
    pub fn end(&self) -> (r: usize)
        ensures
            self@.wf(),
            r == self@.end(),
    {
        proof {
            use_type_invariant(self);
        }
        match self.groups[0] {
            Some((_, e)) => e,
            None => 0,
        }
    }

    /// The text of the match: the text that was searched, from `start()`
    /// up to `end()`.
    pub fn as_str(&self) -> (r: &'t str)
        ensures
            self@.wf(),
            r@ == self@.matched(),
            r@ == self@.text.subrange(self@.start(), self@.end()),
    {
        proof {
            use_type_invariant(self);
        }
        match self.groups[0] {
            Some((s, e)) => self.text.substring_char(s, e),
            None => self.text,
        }
    }

    /// The text of group `i`, where group 0 is the whole match; `None` if
    /// the pattern has no such group or the group took no part in the
    /// match.
    pub fn group(&self, i: usize) -> (r: Option<&'t str>)
        ensures
            self@.wf(),
            text_view(r) == self@.group(i as int),
    {
        proof {
            use_type_invariant(self);
        }
        if i < self.groups.len() {
            match self.groups[i] {
                Some((s, e)) => Some(self.text.substring_char(s, e)),
                None => None,
            }
        } else {
            None
        }
    }

    /// The span of group `i`, as the offsets of its first character and of
    /// the character behind its last.
    pub fn span(&self, i: usize) -> (r: Option<(usize, usize)>)
        ensures
            self@.wf(),
            r == if i < self@.groups.len() {
                self@.groups[i as int]
            } else {
                None
            },
    {
        proof {
            use_type_invariant(self);
        }
        if i < self.groups.len() {
            self.groups[i]
        } else {
            None
        }
    }

    /// The number of groups, the whole match included.
    pub fn group_count(&self) -> (r: usize)
        ensures
            self@.wf(),
            r == self@.groups.len(),
            r >= 1,
    {
        proof {
            use_type_invariant(self);
        }
        self.groups.len()
    }
}

} // verus!
