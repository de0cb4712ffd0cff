//! Errors for numeric-string parsing.
use vstd::prelude::*;
use vstd::string::StringExecFns;

verus! {

/// Why a numeric string failed to parse.
#[derive(Debug, Clone, PartialEq, Eq)]
pub enum ParseNumErrKind {
    Empty,
    InvalidDigit,
    Overflow,
    Underflow,
    BadFormat(String),
}

/// An error from parsing a number out of a byte or character string.
#[derive(Debug, Clone, PartialEq, Eq)]
pub struct ParseNumErr {
    pub kind: ParseNumErrKind,
}

/// The message text for each kind of parse error.
pub open spec fn spec_message(kind: ParseNumErrKind) -> Seq<char> {
    match kind {
        ParseNumErrKind::Empty => "cannot parse integer from empty string"@,
        ParseNumErrKind::InvalidDigit => "invalid digit found in string"@,
        ParseNumErrKind::Overflow => "number too large to fit in target type"@,
        ParseNumErrKind::Underflow => "number too small to fit in target type"@,
        ParseNumErrKind::BadFormat(s) => s@,
    }
}

impl ParseNumErr {
    /// An error that reports a value too large for the target type.
    pub fn overflow() -> (r: ParseNumErr)
        ensures
            r.kind == ParseNumErrKind::Overflow,
    {
        ParseNumErr { kind: ParseNumErrKind::Overflow }
    }

    /// An error that reports an empty digit string.
    pub fn empty() -> (r: ParseNumErr)
        ensures
            r.kind == ParseNumErrKind::Empty,
    {
        ParseNumErr { kind: ParseNumErrKind::Empty }
    }

    /// An error that reports a byte that is not a valid digit.
    pub fn invalid_digit() -> (r: ParseNumErr)
        ensures
            r.kind == ParseNumErrKind::InvalidDigit,
    {
        ParseNumErr { kind: ParseNumErrKind::InvalidDigit }
    }

    /// An error that reports a value too small for the target type.
    pub fn underflow() -> (r: ParseNumErr)
        ensures
            r.kind == ParseNumErrKind::Underflow,
    {
        ParseNumErr { kind: ParseNumErrKind::Underflow }
    }

    /// A human-readable description of the error.
    pub fn display(&self) -> (r: String)
        ensures
            r@ == spec_message(self.kind),
    {
        match &self.kind {
            ParseNumErrKind::Empty => String::from_str("cannot parse integer from empty string"),
            ParseNumErrKind::InvalidDigit => String::from_str("invalid digit found in string"),
            ParseNumErrKind::Overflow => String::from_str(
                "number too large to fit in target type",
            ),
            ParseNumErrKind::Underflow => String::from_str(
                "number too small to fit in target type",
            ),
            ParseNumErrKind::BadFormat(s) => s.clone(),
        }
    }
}

} // verus!
