//! What a parse reports when it fails.

use vstd::prelude::*;
use vstd::string::StringSliceAdditionalSpecFns;

verus! {

/// What was required at the place where a parse gave up.
#[derive(Debug, Clone, Copy, PartialEq, Eq, Structural)]
pub enum ErrorKind {
    /// The input ended where a character was required, or went on where it
    /// had to end.
    Eof,
    /// A particular punctuation character was required.
    Char,
    /// A particular keyword or symbol was required.
    Tag,
    /// A decimal digit was required.
    Digit,
    /// A hexadecimal digit was required.
    HexDigit,
    /// An identifier has to start with an alphabetic character.
    Alphabetic,
    /// Neither an escape sequence nor ordinary string content.
    StrFragment,
    /// A character literal cannot hold a bare quote.
    BareQuote,
    /// The character that decides constness was neither `:` nor `=`.
    Constness,
    /// An escape names a code point that is no Unicode scalar value.
    Scalar,
    /// An integer literal does not fit in 64 bits.
    IntRange,
}

/// A failed parse: the input that was left at the place of the failure, and
/// what was required there. The place is never before the start of the input
/// that the parser was given, so a caller is free to try something else there.
#[derive(Debug, Clone, Copy, PartialEq, Eq)]
pub struct ParseError<'a> {
    pub input: &'a str,
    pub kind: ErrorKind,
}

/// A failed parse as a mathematical value.
pub struct Failure {
    pub rest: Seq<char>,
    pub kind: ErrorKind,
}

/// What a parser makes of a text: the unconsumed rest and a value, or a
/// failure.
pub type Outcome<T> = Result<(Seq<char>, T), Failure>;

/// What every parser of this library returns.
pub type ParseResult<'a, T> = Result<(&'a str, T), ParseError<'a>>;

impl<'a> View for ParseError<'a> {
    type V = Failure;

    open spec fn view(&self) -> Failure {
        Failure { rest: self.input@, kind: self.kind }
    }
}

/// The failure of kind `kind` at `rest`.
pub open spec fn fail<T>(rest: Seq<char>, kind: ErrorKind) -> Outcome<T> {
    Err(Failure { rest, kind })
}

/// A parser's result as a mathematical value.
pub open spec fn outcome_of<'a, T: View>(r: ParseResult<'a, T>) -> Outcome<T::V> {
    match r {
        Ok((rest, value)) => Ok((rest@, value@)),
        Err(e) => Err(e@),
    }
}

impl<'a> ParseError<'a> {
    /// The error of kind `kind` at `input`.
    pub fn new(input: &'a str, kind: ErrorKind) -> (e: Self)
        ensures
            e@ == (Failure { rest: input@, kind }),
    {
        ParseError { input, kind }
    }

    /// How many bytes of `source` precede the place of the failure, when the
    /// error stems from a parse of `source`.
    pub fn offset(&self, source: &str) -> (at: usize)
        ensures
            at == if self.input.spec_bytes().len() <= source.spec_bytes().len() {
                source.spec_bytes().len() - self.input.spec_bytes().len()
            } else {
                0
            },
    {
        let whole = source.as_bytes().len();
        let left = self.input.as_bytes().len();
        if left <= whole {
            whole - left
        } else {
            0
        }
    }
}

} // verus!
