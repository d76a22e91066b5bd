//! The loader's failure conditions and their numeric codes, which differ by
//! the kind of segment in which a condition arose.
use vstd::prelude::*;

verus! {

/// A failure condition of segment parsing, or `AllOk` for none.
#[derive(Clone, Copy, Debug, PartialEq, Eq, Structural)]
pub enum ErrorTypes {
    NoSegment,
    AllOk,
    MalformedAssignment,
    NotChronological,
    MalformedSegment,
}

/// The kind of segment that a condition arose in.
#[derive(Clone, Copy, Debug, PartialEq, Eq, Structural)]
pub enum SegmentErrorTypes {
    Variable,
    Code,
}

/// The code of `error` in a segment of kind `seg`: odd for the variable
/// segment, even for the code segment, and 0 for `AllOk` in either.
pub open spec fn error_code(seg: SegmentErrorTypes, error: ErrorTypes) -> u32 {
    match seg {
        SegmentErrorTypes::Variable => match error {
            ErrorTypes::NoSegment => 1,
            ErrorTypes::AllOk => 0,
            ErrorTypes::MalformedAssignment => 3,
            ErrorTypes::NotChronological => 5,
            ErrorTypes::MalformedSegment => 7,
        },
        SegmentErrorTypes::Code => match error {
            ErrorTypes::NoSegment => 2,
            ErrorTypes::AllOk => 0,
            ErrorTypes::MalformedAssignment => 4,
            ErrorTypes::NotChronological => 6,
            ErrorTypes::MalformedSegment => 8,
        },
    }
}

/// The text that goes with each code.
pub open spec fn message_of(code: u32) -> Seq<char> {
    if code == 0 {
        "Ok"@
    } else if code == 1 {
        "No register segment found!"@
    } else if code == 2 {
        "No code segment found!"@
    } else if code == 3 {
        "Malformed register assignment found!"@
    } else if code == 4 {
        "Malformed code assignment found!"@
    } else if code == 5 {
        "Register declaration not in chronological order!"@
    } else if code == 6 {
        "Code lines are not in chronological order!"@
    } else if code == 7 {
        "Malformed register segment found!"@
    } else {
        "Malformed code segment found!"@
    }
}

/// A condition that has a numeric code.
pub trait ErrorCodes {
    spec fn spec_value(&self) -> u32;

    fn value(&self) -> (r: u32)
        ensures
            r == self.spec_value(),
    ;
}

/// A condition that arose in the variable (register) segment.
pub struct VariableErrorCodes {
    pub error: ErrorTypes,
}

/// A condition that arose in the code segment.
pub struct CodeErrorCode {
    pub error: ErrorTypes,
}

impl ErrorCodes for VariableErrorCodes {
    open spec fn spec_value(&self) -> u32 {
        error_code(SegmentErrorTypes::Variable, self.error)
    }

    fn value(&self) -> (r: u32) {
        match self.error {
            ErrorTypes::NoSegment => 1,
            ErrorTypes::AllOk => 0,
            ErrorTypes::MalformedAssignment => 3,
            ErrorTypes::NotChronological => 5,
            ErrorTypes::MalformedSegment => 7,
        }
    }
}

impl ErrorCodes for CodeErrorCode {
    open spec fn spec_value(&self) -> u32 {
        error_code(SegmentErrorTypes::Code, self.error)
    }

    fn value(&self) -> (r: u32) {
        match self.error {
            ErrorTypes::NoSegment => 2,
            ErrorTypes::AllOk => 0,
            ErrorTypes::MalformedAssignment => 4,
            ErrorTypes::NotChronological => 6,
            ErrorTypes::MalformedSegment => 8,
        }
    }
}

/// The code of condition `code` in a segment of kind `seg`.
pub fn error(seg: &SegmentErrorTypes, code: ErrorTypes) -> (r: u32)
    ensures
        r == error_code(*seg, code),
{
    match seg {
        SegmentErrorTypes::Variable => VariableErrorCodes { error: code }.value(),
        SegmentErrorTypes::Code => CodeErrorCode { error: code }.value(),
    }
}

/// The text of a code, or `None` for a number that is no code.
pub fn error_message(code: u32) -> (r: Option<&'static str>)
    ensures
        r is Some <==> code <= 8,
        r matches Some(m) ==> m@ == message_of(code),
{
    match code {
        0 => Some("Ok"),
        1 => Some("No register segment found!"),
        2 => Some("No code segment found!"),
        3 => Some("Malformed register assignment found!"),
        4 => Some("Malformed code assignment found!"),
        5 => Some("Register declaration not in chronological order!"),
        6 => Some("Code lines are not in chronological order!"),
        7 => Some("Malformed register segment found!"),
        8 => Some("Malformed code segment found!"),
        _ => None,
    }
}

} // verus!
