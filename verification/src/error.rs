//! The one way in which drawing a tree fails.

use vstd::prelude::*;
use vstd::std_specs::convert::FromSpecImpl;

verus! {

/// The error of std for a text that takes no more characters.
#[verifier::external_type_specification]
#[verifier::external_body]
pub struct ExFmtError(std::fmt::Error);

/// The text being written took no more characters.
#[derive(Debug, Clone, Copy, PartialEq, Eq, Structural)]
pub struct FormatError;

impl FormatError {
    /// What the error says of itself.
    pub open spec fn description_text() -> Seq<char> {
        "an error occurred when formatting an argument"@
    }

    /// What the error says of itself.
    pub fn description(&self) -> (text: String)
        ensures
            text@ == Self::description_text(),
    {
        String::from_str("an error occurred when formatting an argument")
    }
}

impl From<std::fmt::Error> for FormatError {
    fn from(_error: std::fmt::Error) -> (e: FormatError) {
        FormatError
    }
}

impl FromSpecImpl<std::fmt::Error> for FormatError {
    open spec fn obeys_from_spec() -> bool {
        true
    }

    open spec fn from_spec(_error: std::fmt::Error) -> FormatError {
        FormatError
    }
}

} // verus!
