//! Regular expressions with the syntax and the matching rules of
//! ECMA-262, compiled to a small program and run by a backtracking
//! executor.  Every function of the library is verified with Verus against
//! the contract it carries.
//!
//! # Overview
//!
//! [`compile`] turns a pattern and [`Flags`] into a [`Program`], or tells
//! where the pattern is wrong.  [`exec`] runs a program on a text from a
//! start offset, within a budget of steps, and returns the spans of the
//! groups of the leftmost match.  [`Regex`] owns a program and offers
//! `is_match`, `find`, `find_at`, `find_at_within` and `find_iter`; a
//! [`Match`] gives the text of the match and of its groups, and
//! [`Matches`] walks through the successive matches.
//! `Regex::unstable_from_ecma_literal` reads the notation
//! `/pattern/flags`.
//!
//! # Text and offsets
//!
//! A text is a sequence of characters, that is of Unicode scalar values,
//! and every offset counts characters from the start of the text, with or
//! without the unicode flag.  So an offset never lies inside a character,
//! and the text between two offsets is always a string.
//!
//! Where case is ignored, two characters are the same if they are forms
//! of one letter: the module [`folding`] holds the pairs, which are those
//! of the simple case mappings of Unicode.
//!
//! # Patterns
//!
//! The grammar has alternatives, quantifiers (`*`, `+`, `?`, `{n}`,
//! `{n,}`, `{n,m}`, each greedy or, with a `?` behind it, lazy), character
//! classes with ranges and negation, the sets `\d \w \s` and their
//! complements, the assertions `^ $ \b \B`, capturing and non-capturing
//! groups, lookahead and lookbehind, back references by number, and the
//! character escapes.  Without the unicode flag the older forms are read
//! too: octal escapes, a lookahead with a quantifier, and brackets and
//! braces that stand for themselves.  Named groups and property escapes
//! are not part of the grammar.  A pattern may nest groups 200 deep, and
//! the program of a pattern may have 65536 instructions.
//!
//! # What is proved
//!
//! What a pattern compiles to is given by the function
//! [`compiler::compile_spec`], what running a program means by
//! [`vm::run`] and [`search::search`]; `compile` and `exec` are proved to
//! compute exactly these.  Every program that `compile` returns is valid
//! in the sense of [`valid::valid`], and a run of a valid program stays in
//! the program and in the text.  A search that a budget decides is decided
//! the same way by every larger budget.  For a pattern of plain characters
//! it is proved that a search finds its first occurrence in the text
//! ([`plain`]).  That the program of any other pattern finds the matches
//! that ECMA-262 assigns to the pattern is not proved; the tests hold the
//! two against each other.

pub mod class;
pub mod code;
pub mod compiler;
pub mod error;
pub mod escape;
pub mod flags;
pub mod folding;
pub mod grammar;
pub mod grammar_laws;
pub mod literal;
pub mod matched;
pub mod matches;
pub mod parser;
pub mod plain;
pub mod program;
pub mod regex;
pub mod search;
pub mod text;
pub mod valid;
pub mod vm;
pub mod vm_laws;

pub use crate::compiler::compile;
pub use crate::error::{CompileError, Error, ExecError, SyntaxKind};
pub use crate::flags::{FlagError, Flags};
pub use crate::matched::Match;
pub use crate::matches::Matches;
pub use crate::program::{Inst, Program};
pub use crate::regex::Regex;
pub use crate::search::exec;
