//! The kinds of failure, and where in the text a parse gave up.

use crate::text::is_edge;
use vstd::prelude::*;
use vstd::string::StringSliceAdditionalSpecFns;

verus! {

/// The kinds of failure a caller can tell apart.
#[derive(Debug, Clone, Copy, PartialEq, Eq, Structural)]
pub enum Error {
    /// The text does not follow the grammar.
    ParseFailed,
    /// No input was designated.
    NoFile,
}

impl Error {
    /// The message shown for this kind of failure.
    pub fn message(&self) -> (r: &'static str)
        ensures
            r@ == match *self {
                Error::ParseFailed => "parse failed"@,
                Error::NoFile => "no input file"@,
            },
    {
        match self {
            Error::ParseFailed => "parse failed",
            Error::NoFile => "no input file",
        }
    }
}

/// What the grammar needed at the position where it gave up.
#[derive(Debug, Clone, Copy, PartialEq, Eq, Structural)]
pub enum Expected {
    /// An atomic token.
    Token,
    /// A name that is not a reserved word.
    Identifier,
    /// A literal value.
    Literal,
    /// An expression.
    Expression,
    /// The given punctuation byte.
    Byte(u8),
    /// The word `in` of a `for` loop.
    In,
    /// At least one decimal digit.
    Digits,
    /// An integer between the least and the greatest 64-bit signed value.
    IntegerInRange,
    /// The quote that closes the string opened here.
    ClosingQuote,
    /// Only ASCII characters inside a byte string.
    Ascii,
    /// A character between single quotes.
    Character,
    /// A comment, beginning with its marker.
    Comment,
    /// A path glob after `use`.
    PathGlob,
    /// The end of the line after a statement.
    LineEnd,
    /// A comment, a `use`, a function or a type declaration.
    Declaration,
    /// A name on every variant of a type that has several.
    VariantName,
    /// Fields that are all named or all anonymous.
    UniformFields,
    /// Exactly one function named `main`.
    Main,
}

impl Expected {
    /// A short description, for diagnostic traces.
    pub open spec fn described(self) -> Seq<char> {
        match self {
            Expected::Token => "a token"@,
            Expected::Identifier => "an identifier"@,
            Expected::Literal => "a literal"@,
            Expected::Expression => "an expression"@,
            Expected::Byte(_) => "punctuation"@,
            Expected::In => "the word `in`"@,
            Expected::Digits => "digits"@,
            Expected::IntegerInRange => "an integer that fits 64 bits"@,
            Expected::ClosingQuote => "a string literal, which is never closed"@,
            Expected::Ascii => "a byte string, which holds ASCII only"@,
            Expected::Character => "a character literal"@,
            Expected::Comment => "a comment"@,
            Expected::PathGlob => "a path"@,
            Expected::LineEnd => "the end of a statement"@,
            Expected::Declaration => "a declaration"@,
            Expected::VariantName => "a type with several variants, each of which needs a name"@,
            Expected::UniformFields => "fields that are all named or all anonymous"@,
            Expected::Main => "a program, which needs exactly one function `main`"@,
        }
    }

    /// A short description, for diagnostic traces.
    pub fn describe(&self) -> (r: &'static str)
        ensures
            r@ == self.described(),
    {
        match self {
            Expected::Token => "a token",
            Expected::Identifier => "an identifier",
            Expected::Literal => "a literal",
            Expected::Expression => "an expression",
            Expected::Byte(_) => "punctuation",
            Expected::In => "the word `in`",
            Expected::Digits => "digits",
            Expected::IntegerInRange => "an integer that fits 64 bits",
            Expected::ClosingQuote => "a string literal, which is never closed",
            Expected::Ascii => "a byte string, which holds ASCII only",
            Expected::Character => "a character literal",
            Expected::Comment => "a comment",
            Expected::PathGlob => "a path",
            Expected::LineEnd => "the end of a statement",
            Expected::Declaration => "a declaration",
            Expected::VariantName => "a type with several variants, each of which needs a name",
            Expected::UniformFields => "fields that are all named or all anonymous",
            Expected::Main => "a program, which needs exactly one function `main`",
        }
    }
}

/// Where a parse gave up and what it needed there, as a specification value.
pub struct Fault {
    /// Byte offset into the text.
    pub at: int,
    /// What was needed at that offset.
    pub expected: Expected,
}

/// Where a parse gave up and what it needed there.
#[derive(Debug, Clone, Copy, PartialEq, Eq, Structural)]
pub struct Failure {
    /// Byte offset into the text.
    pub offset: usize,
    /// What was needed at that offset.
    pub expected: Expected,
}

impl View for Failure {
    type V = Fault;

    open spec fn view(&self) -> Fault {
        Fault { at: self.offset as int, expected: self.expected }
    }
}

/// What a grammar rule yields: a value and the position after it, or a fault.
pub type Parsed<T> = Result<(T, int), Fault>;

/// A fault at `at`.
pub open spec fn fault<T>(at: int, expected: Expected) -> Parsed<T> {
    Err(Fault { at, expected })
}

/// The specification value of an executable parse result.
pub open spec fn outcome<T: View>(r: Result<(T, usize), Failure>) -> Parsed<T::V> {
    match r {
        Ok((value, next)) => Ok((value@, next as int)),
        Err(failure) => Err(failure@),
    }
}

/// The specification value of an executable parse result whose value is
/// viewed through `view`.
pub open spec fn outcome_by<T, V>(
    r: Result<(T, usize), Failure>,
    view: spec_fn(T) -> V,
) -> Parsed<V> {
    match r {
        Ok((value, next)) => Ok((view(value), next as int)),
        Err(failure) => Err(failure@),
    }
}

/// Whether a result of parsing at `pos` respects the text `s`: a match
/// ends after `pos`, both a match and a failure lie inside the text, and
/// neither lies inside a character where `pos` does not.
pub open spec fn in_text<T>(r: Result<(T, usize), Failure>, pos: usize, s: Seq<u8>) -> bool {
    match r {
        Ok((_, next)) => pos < next <= s.len() && (is_edge(s, pos as int) ==> is_edge(
            s,
            next as int,
        )),
        Err(failure) => failure.offset <= s.len() && (is_edge(s, pos as int) ==> is_edge(
            s,
            failure.offset as int,
        )),
    }
}

/// A failure at `offset`.
pub fn fail<T>(offset: usize, expected: Expected) -> (r: Result<T, Failure>)
    ensures
        r == Err::<T, Failure>(Failure { offset, expected }),
{
    Err(Failure { offset, expected })
}

/// The number of line breaks in the first `end` bytes of `s`.
pub open spec fn line_breaks(s: Seq<u8>, end: int) -> nat
    decreases end,
{
    if end <= 0 || end > s.len() {
        0
    } else if s[end - 1] == '\n' as u8 {
        line_breaks(s, end - 1) + 1
    } else {
        line_breaks(s, end - 1)
    }
}

/// The position at which the line holding `at` begins.
pub open spec fn line_start(s: Seq<u8>, at: int) -> int
    decreases at,
{
    if at <= 0 || at > s.len() {
        0
    } else if s[at - 1] == '\n' as u8 {
        at
    } else {
        line_start(s, at - 1)
    }
}

/// A place in the text, counted from one.
#[derive(Debug, Clone, Copy, PartialEq, Eq, Structural)]
pub struct Place {
    /// The line, counted from one.
    pub line: usize,
    /// The column in bytes, counted from one.
    pub column: usize,
}

impl Failure {
    /// The line and column of the failure in `src`.
    pub fn locate(&self, src: &str) -> (place: Place)
        requires
            self.offset <= src.spec_bytes().len(),
            self.offset < usize::MAX,
        ensures
            place.line == line_breaks(src.spec_bytes(), self.offset as int) + 1,
            place.column == self.offset - line_start(src.spec_bytes(), self.offset as int) + 1,
    {
        let bytes = src.as_bytes();
        let mut line: usize = 1;
        let mut start: usize = 0;
        let mut i: usize = 0;
        while i < self.offset
            invariant
                bytes@ == src.spec_bytes(),
                i <= self.offset <= bytes@.len(),
                self.offset < usize::MAX,
                line == line_breaks(bytes@, i as int) + 1,
                line <= i + 1,
                start == line_start(bytes@, i as int),
                start <= i,
            decreases self.offset - i,
        {
            if bytes[i] == '\n' as u8 {
                line += 1;
                start = i + 1;
            }
            i += 1;
        }
        Place { line, column: self.offset - start + 1 }
    }
}

} // verus!
