//! What is shown for the result of a parse, and where.

use vstd::prelude::*;
use crate::format::{formatted, into_ascii_tree};
use crate::node::{forest_view, ParseNode};

verus! {

/// A text and the stream that it is for.
#[derive(Debug, PartialEq, Eq)]
pub enum Report {
    /// The tree, for the standard output.
    Output(String),
    /// The description of a failure, for the diagnostic stream.
    Diagnostic(String),
}

/// Decides what is shown for the result of a parse. A parse that failed
/// gives its own description as a diagnostic. One that succeeded gives the
/// text of its tree as output; were the tree not written, the description
/// of that failure would be the diagnostic.
pub fn report(parsing_result: Result<Vec<ParseNode>, String>) -> (shown: Report)
    ensures
        parsing_result matches Err(message) ==> (shown matches Report::Diagnostic(text) && text@
            == message@),
        parsing_result matches Ok(forest) ==> (shown matches Report::Output(text) && text@
            == formatted(forest_view(forest@))),
{
    match parsing_result {
        Ok(forest) => match into_ascii_tree(&forest) {
            Ok(text) => Report::Output(text),
            Err(error) => Report::Diagnostic(error.description()),
        },
        Err(message) => Report::Diagnostic(message),
    }
}

} // verus!
