//! The errors that checking a suite or planning a run can report.

use vstd::prelude::*;

verus! {

/// Why a suite or a configuration was refused.
#[derive(Clone, Copy, PartialEq, Eq, Structural, Debug)]
pub enum SuiteError {
    /// The variation order names something that is not a field.
    InvalidField,
    /// A field has an empty option list.
    IncompleteSpecification,
    /// A field has no option list at all.
    MissingField,
    /// No benchmark exists for the configuration.
    Unimplemented,
}

/// The text that describes each error.
pub open spec fn error_text(e: SuiteError) -> Seq<char> {
    match e {
        SuiteError::InvalidField => "Invalid field"@,
        SuiteError::IncompleteSpecification => "Incomplete TestSuite specification"@,
        SuiteError::MissingField => "Missing field"@,
        SuiteError::Unimplemented => "Unimplemented"@,
    }
}

impl SuiteError {
    /// The text that describes the error.
    pub fn message(&self) -> (text: &'static str)
        ensures
            text@ == error_text(*self),
    {
        match self {
            SuiteError::InvalidField => "Invalid field",
            SuiteError::IncompleteSpecification => "Incomplete TestSuite specification",
            SuiteError::MissingField => "Missing field",
            SuiteError::Unimplemented => "Unimplemented",
        }
    }
}

} // verus!
