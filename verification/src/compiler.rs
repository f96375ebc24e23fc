//! Compiling a pattern to a program.

use vstd::prelude::*;
use crate::code::MAX_CODE_LEN;
use crate::error::{CompileError, SyntaxKind};
use crate::escape::MAX_PATTERN_LEN;
use crate::flags::Flags;
use crate::class::same_syntax;
use crate::grammar::{disjunction, syntax_error, Counts, Parsed, MAX_DEPTH};
use crate::grammar_laws::{
    lemma_disjunction_bounds, lemma_disjunction_closed, lemma_disjunction_same, limits_of,
    well_made, within,
};
use crate::parser::{read_disjunction, Piece};
use crate::valid::{lemma_closed_grows, lemma_valid_program};
use crate::program::{Inst, Program, ProgramView};
use crate::text::chars_of;

verus! {

/// The limit that lets every number name a back reference.
pub const NO_LIMIT: usize = usize::MAX;

/// The counts before anything of a pattern is read: the whole match is a
/// group, and that is all.
pub open spec fn spec_first_counts(limit: usize) -> Counts {
    Counts { groups: 1, marks: 0, max_ref: 0, max_ref_at: 0, limit }
}

/// The counts before anything of a pattern is read.
#[verifier::when_used_as_spec(spec_first_counts)]
pub fn first_counts(limit: usize) -> (r: Counts)
    ensures
        r == spec_first_counts(limit),
{
    Counts { groups: 1, marks: 0, max_ref: 0, max_ref_at: 0, limit }
}

/// The whole of `pattern`, read with the limit `limit` to back references:
/// one disjunction, which must reach the end of the pattern.  A `)` that
/// stops it has no `(`.
pub open spec fn whole_pattern(pattern: Seq<char>, flags: Flags, limit: usize) -> Result<
    Parsed,
    CompileError,
> {
    match disjunction(pattern, flags, 0, first_counts(limit), false, MAX_DEPTH as nat, None) {
        Err(e) => Err(e),
        Ok(p) => if p.next < pattern.len() {
            Err(syntax_error(p.next, SyntaxKind::UnmatchedParen))
        } else {
            Ok(p)
        },
    }
}

/// The program made of the code and the counts of a pattern that was
/// read.  Every back reference must name a group that the pattern has.
/// The program is the code followed by `Accept`; it has two slots for each
/// group and one for each repetition.
pub open spec fn finished(p: Parsed, flags: Flags) -> Result<ProgramView, CompileError> {
    if p.counts.max_ref >= p.counts.groups {
        Err(syntax_error(p.counts.max_ref_at as int, SyntaxKind::InvalidBackReference))
    } else if p.code.len() >= MAX_CODE_LEN {
        Err(syntax_error(0, SyntaxKind::TooLarge))
    } else {
        Ok(
            ProgramView {
                insts: p.code.push(Inst::Accept),
                groups: p.counts.groups as nat,
                slots: (2 * p.counts.groups + p.counts.marks) as nat,
                flags,
            },
        )
    }
}

/// The program that `pattern` compiles to with `flags`, or the error that
/// compiling it gives.
///
/// The pattern is read with every `\` and number taken as a back
/// reference.  If one of them names a group that the pattern does not
/// have, then, where the unicode flag is not set, the pattern is read once
/// more with the number of its groups as the limit to back references.
pub open spec fn compile_spec(pattern: Seq<char>, flags: Flags) -> Result<
    ProgramView,
    CompileError,
> {
    if pattern.len() > MAX_PATTERN_LEN {
        Err(syntax_error(0, SyntaxKind::TooLarge))
    } else {
        match whole_pattern(pattern, flags, NO_LIMIT) {
            Err(e) => Err(e),
            Ok(p) => if p.counts.max_ref >= p.counts.groups && !flags.unicode {
                match whole_pattern(pattern, flags, (p.counts.groups - 1) as usize) {
                    Err(e) => Err(e),
                    Ok(q) => finished(q, flags),
                }
            } else {
                finished(p, flags)
            },
        }
    }
}

/// The mathematical value of what compiling gave.
pub open spec fn compiled_view(r: Result<Program, CompileError>) -> Result<
    ProgramView,
    CompileError,
> {
    match r {
        Ok(p) => Ok(p@),
        Err(e) => Err(e),
    }
}

/// What is read as a whole pattern ends at the end of the pattern and is
/// well made, and an error names a character of the pattern, or its end.
pub proof fn lemma_whole_pattern(pattern: Seq<char>, flags: Flags, limit: usize)
    ensures
        well_made(whole_pattern(pattern, flags, limit), first_counts(limit)),
        within(whole_pattern(pattern, flags, limit), pattern.len() as int, pattern.len() as int),
{
    let n = first_counts(limit);
    lemma_disjunction_bounds(pattern, flags, 0, n, false, MAX_DEPTH as nat, None);
    lemma_disjunction_closed(pattern, flags, 0, n, false, MAX_DEPTH as nat, None);
}

/// What is well made gives a valid program.
pub proof fn lemma_finished(p: Parsed, flags: Flags, n: Counts, len: int)
    requires
        well_made(Ok(p), n),
        p.counts.max_ref_at <= len,
    ensures
        finished(p, flags) matches Ok(view) ==> view.wf() && view.flags == flags,
        finished(p, flags) matches Err(CompileError::Syntax(at, _)) ==> at <= len,
{
    if p.counts.max_ref < p.counts.groups && p.code.len() < MAX_CODE_LEN {
        let view = ProgramView {
            insts: p.code.push(Inst::Accept),
            groups: p.counts.groups as nat,
            slots: (2 * p.counts.groups + p.counts.marks) as nat,
            flags,
        };
        lemma_closed_grows(p.code, limits_of(p.counts), view.limits());
        lemma_valid_program(p.code, view.limits());
    }
}

/// A program that compiling gives is valid, and an error that it gives
/// names a character of the pattern, or its end.
pub proof fn lemma_compile_sound(pattern: Seq<char>, flags: Flags)
    ensures
        compile_spec(pattern, flags) matches Ok(p) ==> p.wf() && p.flags == flags,
        compile_spec(pattern, flags) matches Err(CompileError::Syntax(at, _)) ==> at
            <= pattern.len(),
{
    if pattern.len() <= MAX_PATTERN_LEN {
        lemma_whole_pattern(pattern, flags, NO_LIMIT);
        match whole_pattern(pattern, flags, NO_LIMIT) {
            Err(e) => {},
            Ok(p) => {
                if p.counts.max_ref >= p.counts.groups && !flags.unicode {
                    let limit = (p.counts.groups - 1) as usize;
                    lemma_whole_pattern(pattern, flags, limit);
                    match whole_pattern(pattern, flags, limit) {
                        Err(e) => {},
                        Ok(q) => {
                            lemma_finished(q, flags, first_counts(limit), pattern.len() as int);
                        },
                    }
                } else {
                    lemma_finished(p, flags, first_counts(NO_LIMIT), pattern.len() as int);
                }
            },
        }
    }
}

/// The mathematical value of what reading a whole pattern gave.
pub open spec fn whole_view(r: Result<Piece, CompileError>) -> Result<Parsed, CompileError> {
    match r {
        Ok(p) => Ok(p@),
        Err(e) => Err(e),
    }
}

/// Reads the whole of `pattern`.
fn read_whole_pattern(pattern: &Vec<char>, flags: Flags, limit: usize) -> (r: Result<
    Piece,
    CompileError,
>)
    requires
        pattern.len() <= MAX_PATTERN_LEN,
    ensures
        whole_view(r) == whole_pattern(pattern@, flags, limit),
{
    match read_disjunction(pattern, flags, 0, first_counts(limit), false, MAX_DEPTH) {
        Err(e) => Err(e),
        Ok(p) => if p.next < pattern.len() {
            Err(CompileError::Syntax(p.next, SyntaxKind::UnmatchedParen))
        } else {
            Ok(p)
        },
    }
}

/// Makes the program of a pattern that was read.
fn finish(p: Piece, flags: Flags, Ghost(n): Ghost<Counts>, Ghost(len): Ghost<int>) -> (r: Result<
    Program,
    CompileError,
>)
    requires
        well_made(Ok(p@), n),
        p.counts.max_ref_at <= len,
    ensures
        compiled_view(r) == finished(p@, flags),
{
    proof {
        lemma_finished(p@, flags, n, len);
    }
    if p.counts.max_ref >= p.counts.groups {
        Err(CompileError::Syntax(p.counts.max_ref_at, SyntaxKind::InvalidBackReference))
    } else if p.code.len() >= MAX_CODE_LEN {
        Err(CompileError::Syntax(0, SyntaxKind::TooLarge))
    } else {
        let mut insts = p.code;
        insts.push(Inst::Accept);
        Ok(Program::new(insts, p.counts.groups, 2 * p.counts.groups + p.counts.marks, flags))
    }
}

/// Compiles the pattern given as characters.
pub(crate) fn compile_chars(pattern: &Vec<char>, flags: Flags) -> (r: Result<Program, CompileError>)
    ensures
        compiled_view(r) == compile_spec(pattern@, flags),
        r matches Err(CompileError::Syntax(at, _)) ==> at <= pattern.len(),
{
    proof {
        lemma_compile_sound(pattern@, flags);
    }
    if pattern.len() > MAX_PATTERN_LEN {
        return Err(CompileError::Syntax(0, SyntaxKind::TooLarge));
    }
    proof {
        lemma_whole_pattern(pattern@, flags, NO_LIMIT);
    }
    match read_whole_pattern(pattern, flags, NO_LIMIT) {
        Err(e) => Err(e),
        Ok(p) => {
            if p.counts.max_ref >= p.counts.groups && !flags.unicode {
                let limit = p.counts.groups - 1;
                proof {
                    lemma_whole_pattern(pattern@, flags, limit);
                }
                match read_whole_pattern(pattern, flags, limit) {
                    Err(e) => Err(e),
                    Ok(q) => finish(
                        q,
                        flags,
                        Ghost(first_counts(limit)),
                        Ghost(pattern@.len() as int),
                    ),
                }
            } else {
                finish(p, flags, Ghost(first_counts(NO_LIMIT)), Ghost(pattern@.len() as int))
            }
        },
    }
}

/// Compiles `pattern` with `flags`.
///
/// Returns the program, or the first error of the pattern with the index
/// of the character at which it was found.  The result depends on nothing
/// but the two arguments.
pub fn compile(pattern: &str, flags: Flags) -> (r: Result<Program, CompileError>)
    ensures
        compiled_view(r) == compile_spec(pattern@, flags),
        r matches Ok(p) ==> p@.wf() && p@.flags == flags,
        r matches Err(CompileError::Syntax(at, _)) ==> at <= pattern@.len(),
{
    proof {
        lemma_compile_sound(pattern@, flags);
    }
    let chars = chars_of(pattern);
    compile_chars(&chars, flags)
}

/// Compiling is a function: whatever two compilations of one pattern with
/// the same flags return is the same, program or error.
pub proof fn lemma_compile_deterministic(
    pattern: Seq<char>,
    flags: Flags,
    first: Result<Program, CompileError>,
    second: Result<Program, CompileError>,
)
    requires
        compiled_view(first) == compile_spec(pattern, flags),
        compiled_view(second) == compile_spec(pattern, flags),
    ensures
        compiled_view(first) == compiled_view(second),
        first matches Ok(p) ==> second matches Ok(q) && p@ == q@,
        first matches Err(e) ==> second == Err::<Program, CompileError>(e),
{
}

/// The flags `g` and `y` have no part in compiling: but for the flags it
/// records, the program of a pattern, or the error, is the same with and
/// without them.
pub proof fn lemma_global_and_sticky_do_not_compile(pattern: Seq<char>, f: Flags, g: Flags)
    requires
        same_syntax(f, g),
    ensures
        compile_spec(pattern, f) is Ok <==> compile_spec(pattern, g) is Ok,
        compile_spec(pattern, f) matches Err(e) ==> compile_spec(pattern, g) == Err::<
            ProgramView,
            CompileError,
        >(e),
        compile_spec(pattern, f) matches Ok(p) ==> compile_spec(pattern, g) == Ok::<
            ProgramView,
            CompileError,
        >(ProgramView { flags: g, ..p }),
{
    lemma_disjunction_same(pattern, f, g, 0, first_counts(NO_LIMIT), false, MAX_DEPTH as nat, None);
    match whole_pattern(pattern, f, NO_LIMIT) {
        Err(e) => {},
        Ok(p) => {
            let limit = (p.counts.groups - 1) as usize;
            lemma_disjunction_same(
                pattern,
                f,
                g,
                0,
                first_counts(limit),
                false,
                MAX_DEPTH as nat,
                None,
            );
        },
    }
}

} // verus!
