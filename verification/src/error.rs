//! The errors of the library.

use vstd::prelude::*;

verus! {

/// What is wrong with a pattern.
#[derive(Clone, Copy, Debug, PartialEq, Eq, Hash, Structural)]
pub enum SyntaxKind {
    /// A `(` has no `)`.
    UnterminatedGroup,
    /// A `)` has no `(`.
    UnmatchedParen,
    /// A `(?` is followed by nothing the grammar knows.
    InvalidGroup,
    /// A quantifier stands where there is nothing to repeat.
    NothingToRepeat,
    /// The bounds of a `{m,n}` quantifier are out of order.
    QuantifierOutOfOrder,
    /// A `{`, `}` or `]` stands alone where the grammar does not allow it.
    LoneBracket,
    /// A `\` is followed by nothing, or by something that is no escape.
    InvalidEscape,
    /// A `\` and a number name a group that the pattern does not have.
    InvalidBackReference,
    /// A `[` has no `]`.
    UnterminatedClass,
    /// The ends of a class range are out of order, or one is no single
    /// character.
    InvalidClassRange,
    /// Groups are nested more deeply than the compiler follows.
    TooDeep,
    /// The compiled program would be larger than the compiler allows.
    TooLarge,
}

/// Why a pattern was not compiled.
#[derive(Clone, Copy, Debug, PartialEq, Eq, Hash, Structural)]
pub enum CompileError {
    /// The pattern breaks the grammar: where, counted in characters from
    /// the start of the pattern, and how.
    Syntax(usize, SyntaxKind),
}

/// Why a program was not run to the end.
#[derive(Clone, Copy, Debug, PartialEq, Eq, Hash, Structural)]
pub enum ExecError {
    /// The start offset lies behind the end of the text.
    IndexOutOfRange,
    /// The text has more characters than an offset can count.
    TextTooLong,
    /// The step budget ran out before the search was decided.
    ExecutionLimitExceeded,
}

/// Why no regular expression was built.
#[derive(Clone, Copy, Debug, PartialEq, Eq, Hash, Structural)]
pub enum Error {
    /// A flag letter is none of `g i m s u y`.
    InvalidFlag(char),
    /// A literal does not begin with `/`.
    MissingLeadingSlash,
    /// A literal has no `/` that ends its pattern.
    MissingTrailingSlash,
    /// The pattern breaks the grammar: where and how.
    Syntax(usize, SyntaxKind),
}

impl SyntaxKind {
    /// A sentence that says what is wrong.
    pub open spec fn spec_message(self) -> Seq<char> {
        match self {
            SyntaxKind::UnterminatedGroup => "expecting ')'"@,
            SyntaxKind::UnmatchedParen => "unmatched ')'"@,
            SyntaxKind::InvalidGroup => "invalid group"@,
            SyntaxKind::NothingToRepeat => "nothing to repeat"@,
            SyntaxKind::QuantifierOutOfOrder => "numbers out of order in quantifier"@,
            SyntaxKind::LoneBracket => "lone quantifier bracket"@,
            SyntaxKind::InvalidEscape => "invalid escape sequence"@,
            SyntaxKind::InvalidBackReference => "back reference out of range"@,
            SyntaxKind::UnterminatedClass => "unterminated character class"@,
            SyntaxKind::InvalidClassRange => "invalid class range"@,
            SyntaxKind::TooDeep => "pattern nested too deeply"@,
            SyntaxKind::TooLarge => "pattern too large"@,
        }
    }

    /// A sentence that says what is wrong.
    pub fn message(&self) -> (r: &'static str)
        ensures
            r@ == self.spec_message(),
    {
        match self {
            SyntaxKind::UnterminatedGroup => "expecting ')'",
            SyntaxKind::UnmatchedParen => "unmatched ')'",
            SyntaxKind::InvalidGroup => "invalid group",
            SyntaxKind::NothingToRepeat => "nothing to repeat",
            SyntaxKind::QuantifierOutOfOrder => "numbers out of order in quantifier",
            SyntaxKind::LoneBracket => "lone quantifier bracket",
            SyntaxKind::InvalidEscape => "invalid escape sequence",
            SyntaxKind::InvalidBackReference => "back reference out of range",
            SyntaxKind::UnterminatedClass => "unterminated character class",
            SyntaxKind::InvalidClassRange => "invalid class range",
            SyntaxKind::TooDeep => "pattern nested too deeply",
            SyntaxKind::TooLarge => "pattern too large",
        }
    }
}

impl CompileError {
    /// A sentence that says what is wrong.
    pub fn message(&self) -> (r: &'static str)
        ensures
            self matches CompileError::Syntax(_, kind) && r@ == kind.spec_message(),
    {
        match self {
            CompileError::Syntax(_, kind) => kind.message(),
        }
    }

    /// Where in the pattern the error was found, in characters.
    pub fn position(&self) -> (r: usize)
        ensures
            self matches CompileError::Syntax(at, _) && r == at,
    {
        match self {
            CompileError::Syntax(at, _) => *at,
        }
    }

    /// What is wrong there.
    pub fn kind(&self) -> (r: SyntaxKind)
        ensures
            self matches CompileError::Syntax(_, kind) && r == kind,
    {
        match self {
            CompileError::Syntax(_, kind) => *kind,
        }
    }
}

impl ExecError {
    /// A sentence that says what went wrong.
    pub open spec fn spec_message(self) -> Seq<char> {
        match self {
            ExecError::IndexOutOfRange => "start offset behind the end of the text"@,
            ExecError::TextTooLong => "text too long"@,
            ExecError::ExecutionLimitExceeded => "execution limit exceeded"@,
        }
    }

    /// A sentence that says what went wrong.
    pub fn message(&self) -> (r: &'static str)
        ensures
            r@ == self.spec_message(),
    {
        match self {
            ExecError::IndexOutOfRange => "start offset behind the end of the text",
            ExecError::TextTooLong => "text too long",
            ExecError::ExecutionLimitExceeded => "execution limit exceeded",
        }
    }
}

impl Error {
    /// A sentence that says what is wrong.
    pub open spec fn spec_message(self) -> Seq<char> {
        match self {
            Error::InvalidFlag(_) => "invalid flag"@,
            Error::MissingLeadingSlash => "ECMA literal must start with /"@,
            Error::MissingTrailingSlash => "ECMA literal must have end /"@,
            Error::Syntax(_, kind) => kind.spec_message(),
        }
    }

    /// A sentence that says what is wrong.
    pub fn message(&self) -> (r: &'static str)
        ensures
            r@ == self.spec_message(),
    {
        match self {
            Error::InvalidFlag(_) => "invalid flag",
            Error::MissingLeadingSlash => "ECMA literal must start with /",
            Error::MissingTrailingSlash => "ECMA literal must have end /",
            Error::Syntax(_, kind) => kind.message(),
        }
    }

    /// The error for a flag letter that is none of `g i m s u y`.
    pub fn invalid_flag(flag: char) -> (r: Error)
        ensures
            r == Error::InvalidFlag(flag),
    {
        Error::InvalidFlag(flag)
    }

    /// The error for a literal, `got`, that does not begin with `/`.
    pub fn ecma_literal_must_start_with_slash(got: &str) -> (r: Error)
        ensures
            r == Error::MissingLeadingSlash,
    {
        Error::MissingLeadingSlash
    }

    /// The error for a literal in which no `/` ends the pattern.
    pub fn ecma_literal_must_have_end_slash() -> (r: Error)
        ensures
            r == Error::MissingTrailingSlash,
    {
        Error::MissingTrailingSlash
    }

    /// The error for a pattern that was not compiled.
    pub fn from_compile(e: CompileError) -> (r: Error)
        ensures
            r == Error::spec_from_compile(e),
    {
        match e {
            CompileError::Syntax(at, kind) => Error::Syntax(at, kind),
        }
    }

    /// The error for a pattern that was not compiled.
    pub open spec fn spec_from_compile(e: CompileError) -> Error {
        match e {
            CompileError::Syntax(at, kind) => Error::Syntax(at, kind),
        }
    }
}

} // verus!
