//! The ways in which reading a mount table fails.

use vstd::prelude::*;
use crate::number::IntegerFault;

verus! {

/// Why a mount table, or one line of it, could not be read.
#[derive(Clone, Copy, Debug, PartialEq, Eq, Structural)]
pub enum FstabError {
    /// No line of the text has the shape of an entry of any dialect.
    UnsupportedFormat,
    /// The line has the wrong number of fields for its dialect.
    MalformedEntry,
    /// A field for flags is lacking, or names no flag after `flags=`.
    FlagsMissing,
    /// The field for the check order is no unsigned 16-bit integer.
    InvalidInteger(IntegerFault),
}

impl FstabError {
    /// A sentence for a person.
    pub fn message(&self) -> (r: &'static str)
        ensures
            r@ == match *self {
                FstabError::UnsupportedFormat => "Unsupported file passed"@,
                FstabError::MalformedEntry => "This entry is unexpected"@,
                FstabError::FlagsMissing =>
                    "The attribute flags= was defined but no flags are present"@,
                FstabError::InvalidInteger(IntegerFault::Empty) =>
                    "cannot parse integer from empty string"@,
                FstabError::InvalidInteger(IntegerFault::InvalidDigit) =>
                    "invalid digit found in string"@,
                FstabError::InvalidInteger(IntegerFault::Overflow) =>
                    "number too large to fit in target type"@,
            },
    {
        match self {
            FstabError::UnsupportedFormat => "Unsupported file passed",
            FstabError::MalformedEntry => "This entry is unexpected",
            FstabError::FlagsMissing => "The attribute flags= was defined but no flags are present",
            FstabError::InvalidInteger(IntegerFault::Empty) =>
                "cannot parse integer from empty string",
            FstabError::InvalidInteger(IntegerFault::InvalidDigit) =>
                "invalid digit found in string",
            FstabError::InvalidInteger(IntegerFault::Overflow) =>
                "number too large to fit in target type",
        }
    }
}

} // verus!
