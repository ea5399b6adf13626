//! Why a document could not be read.
use vstd::prelude::*;
use vstd::string::StringExecFns;

verus! {

/// Why a document could not be read. Every error is final: nothing is
/// recovered and no partial value is returned.
#[derive(Debug, Clone, Copy, PartialEq, Eq, Structural)]
pub enum Error {
    /// The input ended in the middle of a token.
    Eof,
    /// A value was expected and the next character starts none.
    Syntax,
    /// A boolean was asked for and the next character starts none.
    ExpectedBoolean,
    /// No digit run could be read, it ran into a character that cannot
    /// follow a number, or its value does not fit in 64 bits.
    ExpectedInteger,
    /// A float was asked for and the next character starts none, or its
    /// integer part is followed by neither a point nor a comma.
    ExpectedFloat,
    /// A string was asked for, as the key of an object is, and the next
    /// character starts none.
    ExpectedString,
    /// An escape character stands before something other than itself or the
    /// string's delimiter.
    ExpectedEscapedToken,
    /// A date was asked for and the next character starts none, or the
    /// milliseconds read are outside the range of dates.
    ExpectedDate,
    /// The same for a low-precision date.
    ExpectedLpDate,
    /// A repeat token stands where no element precedes it.
    UnexpectedRepeatToken,
    /// A reference names an index that nothing was registered under.
    DanglingReference,
    /// The root value is followed by more input.
    TrailingCharacters,
}

/// What reading gives: a value, or why there is none.
pub type Result<T> = core::result::Result<T, Error>;

impl Error {
    /// A short description for people.
    pub fn message(&self) -> (text: String)
        ensures
            text@ == (match *self {
                Error::Eof => "unexpected end of input"@,
                Error::Syntax => "unexpected token"@,
                Error::ExpectedBoolean => "expected boolean"@,
                Error::ExpectedInteger => "malformed integer"@,
                Error::ExpectedFloat => "malformed float"@,
                Error::ExpectedString => "expected string"@,
                Error::ExpectedEscapedToken => "expected escaped token"@,
                Error::ExpectedDate => "malformed date"@,
                Error::ExpectedLpDate => "malformed low-precision date"@,
                Error::UnexpectedRepeatToken => "unexpected repeat token"@,
                Error::DanglingReference => "dangling reference"@,
                Error::TrailingCharacters => "trailing characters"@,
            }),
    {
        match self {
            Error::Eof => String::from_str("unexpected end of input"),
            Error::Syntax => String::from_str("unexpected token"),
            Error::ExpectedBoolean => String::from_str("expected boolean"),
            Error::ExpectedInteger => String::from_str("malformed integer"),
            Error::ExpectedFloat => String::from_str("malformed float"),
            Error::ExpectedString => String::from_str("expected string"),
            Error::ExpectedEscapedToken => String::from_str("expected escaped token"),
            Error::ExpectedDate => String::from_str("malformed date"),
            Error::ExpectedLpDate => String::from_str("malformed low-precision date"),
            Error::UnexpectedRepeatToken => String::from_str("unexpected repeat token"),
            Error::DanglingReference => String::from_str("dangling reference"),
            Error::TrailingCharacters => String::from_str("trailing characters"),
        }
    }
}

} // verus!
