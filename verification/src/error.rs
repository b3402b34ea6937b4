//! Error codes and errors of the codec.

use vstd::prelude::*;

verus! {

/// What went wrong.
#[derive(Clone, PartialEq, Eq, Debug)]
pub enum ErrorCode {
    /// The stream ended in the middle of a field.
    EofWhileParsing,
    /// A boolean byte, or the tag of an option, other than `0x00` and `0x01`.
    InvalidBoolByte,
    /// A unit byte other than `0x00`.
    InvalidUnitByte,
    /// No prefix of the next four bytes is the UTF-8 form of a character.
    InvalidUtf8Char,
    /// The first byte of an integer is neither a value below `0x80` nor a
    /// prefix code that the integer's kind admits.
    InvalidIntegerPrefix,
    /// The integer read does not fit the width asked for, or has the wrong
    /// sign.
    IntegerSizeMismatch,
    /// The selector of a sum names no variant of the layout.
    InvalidVariantIndex,
    /// The layout iterator waits for a branch to be chosen.
    MustBranch,
    /// The layout iterator has no branch to choose.
    CannotBranch,
    /// The branch chosen is not one of those on offer.
    InvalidBranch,
    /// The layout refers to a rule that was never resolved.
    UnresolvedReference,
    /// The layout holds a rule that has no wire form known to this codec.
    UnsupportedRule,
    /// The value does not have the shape that the layout asks for.
    LayoutMismatch,
    /// The layout ended before a value was complete.
    LayoutExhausted,
    /// Bytes are left over after a complete value.
    TrailingBytes,
    /// A message from the framework that drives the codec.
    Custom(String),
}

/// An error of the codec: a code, with the position in the stream where it
/// has one.
#[derive(Clone, PartialEq, Eq, Debug)]
pub enum Error {
    /// The stream could not be read as asked; the number is the position, in
    /// bytes from the start, of the field that failed.
    Eval(ErrorCode, usize),
    /// A structural error, without a position.
    Syntax(ErrorCode),
}

/// The words for `code`.
pub open spec fn message_of(code: ErrorCode) -> Seq<char> {
    match code {
        ErrorCode::EofWhileParsing => "EOF while parsing"@,
        ErrorCode::InvalidBoolByte => "invalid bool byte"@,
        ErrorCode::InvalidUnitByte => "invalid unit byte"@,
        ErrorCode::InvalidUtf8Char => "could not construct valid UTF-8 char from bytes"@,
        ErrorCode::InvalidIntegerPrefix => "invalid value stored in the first byte of an integer"@,
        ErrorCode::IntegerSizeMismatch => "integer size mismatch"@,
        ErrorCode::InvalidVariantIndex => "invalid variant index"@,
        ErrorCode::MustBranch => "must call branch to proceed"@,
        ErrorCode::CannotBranch => "cannot branch at this location in the tree"@,
        ErrorCode::InvalidBranch => "invalid branch index"@,
        ErrorCode::UnresolvedReference => "unresolved reference in the layout"@,
        ErrorCode::UnsupportedRule => "the layout holds a rule without a wire form"@,
        ErrorCode::LayoutMismatch => "the value does not have the shape of the layout"@,
        ErrorCode::LayoutExhausted => "the layout ended before the value"@,
        ErrorCode::TrailingBytes => "trailing bytes found"@,
        ErrorCode::Custom(message) => message@,
    }
}

impl ErrorCode {
    /// The code in words.
    pub fn message(&self) -> (text: String)
        ensures
            text@ == message_of(*self),
    {
        match self {
            ErrorCode::EofWhileParsing => "EOF while parsing".to_owned(),
            ErrorCode::InvalidBoolByte => "invalid bool byte".to_owned(),
            ErrorCode::InvalidUnitByte => "invalid unit byte".to_owned(),
            ErrorCode::InvalidUtf8Char => "could not construct valid UTF-8 char from bytes".to_owned(),
            ErrorCode::InvalidIntegerPrefix => "invalid value stored in the first byte of an integer".to_owned(),
            ErrorCode::IntegerSizeMismatch => "integer size mismatch".to_owned(),
            ErrorCode::InvalidVariantIndex => "invalid variant index".to_owned(),
            ErrorCode::MustBranch => "must call branch to proceed".to_owned(),
            ErrorCode::CannotBranch => "cannot branch at this location in the tree".to_owned(),
            ErrorCode::InvalidBranch => "invalid branch index".to_owned(),
            ErrorCode::UnresolvedReference => "unresolved reference in the layout".to_owned(),
            ErrorCode::UnsupportedRule => "the layout holds a rule without a wire form".to_owned(),
            ErrorCode::LayoutMismatch => "the value does not have the shape of the layout".to_owned(),
            ErrorCode::LayoutExhausted => "the layout ended before the value".to_owned(),
            ErrorCode::TrailingBytes => "trailing bytes found".to_owned(),
            ErrorCode::Custom(message) => message.clone(),
        }
    }
}

impl Error {
    /// The code of this error.
    pub fn code(&self) -> (c: &ErrorCode)
        ensures
            *c == self.spec_code(),
    {
        match self {
            Error::Eval(c, _) => c,
            Error::Syntax(c) => c,
        }
    }

    /// The code of this error.
    pub open spec fn spec_code(&self) -> ErrorCode {
        match *self {
            Error::Eval(c, _) => c,
            Error::Syntax(c) => c,
        }
    }

    /// The position that this error carries.
    pub fn offset(&self) -> (p: Option<usize>)
        ensures
            p == self.spec_offset(),
    {
        match self {
            Error::Eval(_, p) => Some(*p),
            Error::Syntax(_) => None,
        }
    }

    /// The position that this error carries.
    pub open spec fn spec_offset(&self) -> Option<usize> {
        match *self {
            Error::Eval(_, p) => Some(p),
            Error::Syntax(_) => None,
        }
    }
}

} // verus!
