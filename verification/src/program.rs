//! The compiled form of a pattern: a sequence of instructions for the
//! backtracking executor.

use vstd::prelude::*;
use crate::flags::Flags;
use crate::valid::{valid, Limits};

verus! {

/// One instruction of a compiled program.
///
/// Jump distances are relative to the instruction that holds them, so a
/// run of instructions means the same wherever it is placed.
#[derive(Clone, Copy, Debug, PartialEq, Eq, Hash, Structural)]
pub enum Inst {
    /// Consume one character with this code point.
    Char(u32),
    /// Consume one character that is no line terminator.
    Any,
    /// Consume one character, whatever it is.
    AnyAll,
    /// Consume one character that lies in one of the `count` ranges that
    /// follow this instruction (or, if `negated`, in none of them).
    Class { negated: bool, count: u32 },
    /// One inclusive range of code points of the class before it.
    Range(u32, u32),
    /// Succeed only at the start of the text.
    Start,
    /// Succeed only at the start of a line.
    StartLine,
    /// Succeed only at the end of the text.
    End,
    /// Succeed only at the end of a line.
    EndLine,
    /// Succeed only between a word character and a non-word character.
    WordBoundary,
    /// Succeed only where `WordBoundary` fails.
    NotWordBoundary,
    /// Move one character towards the start of the text.
    Back,
    /// Store the current position in a slot, counted from the first.
    Save(u32),
    /// Clear the slots from the first index up to, not including, the second.
    Reset(u32, u32),
    /// Store the current position in a slot, counted from the last slot
    /// backwards: a loop iteration begins here.
    Mark(u32),
    /// Fail if the slot, counted from the last slot backwards, holds the
    /// current position: the loop iteration that began there has consumed
    /// nothing.
    Progress(u32),
    /// Continue at the first distance; if that fails, at the second.
    Split(i32, i32),
    /// Continue at the distance.
    Jump(i32),
    /// Consume a copy of what the group captured, reading forwards.
    BackRef(u32),
    /// Consume a copy of what the group captured, reading backwards.
    BackRefBack(u32),
    /// Run the instructions that follow as a program of their own, up to
    /// its `Accept`; continue at distance `end` if that succeeded (or, if
    /// `negative`, if it failed), at the position held before.
    Look { negative: bool, end: i32 },
    /// The match is complete.
    Accept,
}

/// What a compiled program is, as a mathematical value.
pub struct ProgramView {
    /// The instructions.
    pub insts: Seq<Inst>,
    /// The number of groups, the whole match included.
    pub groups: nat,
    /// The number of slots a thread of execution needs.
    pub slots: nat,
    /// The flags the program was compiled with.
    pub flags: Flags,
}

impl ProgramView {
    /// The limits that the instructions of the program must keep to: its
    /// groups, one mark for each slot that is not the slot of a group, and
    /// back references to its capturing groups.
    pub open spec fn limits(self) -> Limits {
        Limits {
            groups: self.groups as int,
            marks: self.slots - 2 * self.groups,
            refs: self.groups - 1,
        }
    }

    /// What holds of every compiled program: the whole match counts as a
    /// group, every group has its two slots, and the instructions are a
    /// valid program.
    pub open spec fn wf(self) -> bool {
        &&& self.groups >= 1
        &&& self.slots >= 2 * self.groups
        &&& valid(self.insts, self.limits())
    }
}

/// A compiled pattern.  It is never changed after it was built.
#[derive(Debug, PartialEq, Eq, Hash)]
pub struct Program {
    insts: Vec<Inst>,
    groups: usize,
    slots: usize,
    flags: Flags,
}

impl View for Program {
    type V = ProgramView;

    closed spec fn view(&self) -> ProgramView {
        ProgramView {
            insts: self.insts@,
            groups: self.groups as nat,
            slots: self.slots as nat,
            flags: self.flags,
        }
    }
}

impl Clone for Program {
    fn clone(&self) -> (r: Program)
        ensures
            r@ == self@,
    {
        proof {
            use_type_invariant(self);
        }
        let insts = self.insts.clone();
        assert(insts@ =~= self.insts@);
        Program { insts, groups: self.groups, slots: self.slots, flags: self.flags }
    }
}

impl Program {
    /// What holds of every compiled program.
    #[verifier::type_invariant]
    pub open spec fn wf(&self) -> bool {
        self@.wf()
    }

    /// Puts a program together from its parts.
    pub(crate) fn new(insts: Vec<Inst>, groups: usize, slots: usize, flags: Flags) -> (p: Program)
        requires
            (ProgramView { insts: insts@, groups: groups as nat, slots: slots as nat, flags }).wf(),
        ensures
            p@ == (ProgramView {
                insts: insts@,
                groups: groups as nat,
                slots: slots as nat,
                flags,
            }),
    {
        Program { insts, groups, slots, flags }
    }

    /// The instructions.
    pub(crate) fn insts(&self) -> (r: &Vec<Inst>)
        ensures
            r@ == self@.insts,
    {
        &self.insts
    }

    /// The number of instructions.
    pub fn len(&self) -> (r: usize)
        ensures
            r == self@.insts.len(),
    {
        self.insts.len()
    }

    /// The number of groups, the whole match included: one more than the
    /// number of capturing groups of the pattern.
    pub fn group_count(&self) -> (r: usize)
        ensures
            r == self@.groups,
    {
        self.groups
    }

    /// The number of slots that hold the spans of the groups: two for
    /// each group, the whole match included.
    pub fn capture_slot_count(&self) -> (r: usize)
        ensures
            r == 2 * self@.groups,
            r <= self@.slots,
    {
        proof {
            use_type_invariant(self);
        }
        2 * self.groups
    }

    /// The number of slots a thread of execution needs: those of the
    /// groups, and one for each repetition in the pattern.
    pub fn slot_count(&self) -> (r: usize)
        ensures
            r == self@.slots,
    {
        self.slots
    }

    /// The flags the program was compiled with.
    pub fn flags(&self) -> (r: Flags)
        ensures
            r == self@.flags,
    {
        self.flags
    }
}

} // verus!
