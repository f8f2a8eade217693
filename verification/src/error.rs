//! What can go wrong between offering the candidates and having a selection.

use vstd::prelude::*;
use vstd::string::*;

verus! {

/// How an answer of the filter tool breaks the line format.
#[derive(Debug, Clone, Copy, PartialEq, Eq, Structural)]
pub enum ProtocolFault {
    /// The answer holds no comma to part the id from the name.
    MissingSeparator,
    /// What stands before the first comma is no decimal integer that fits.
    InvalidId,
}

/// Why no selection was made.
#[derive(Debug)]
pub enum TabError {
    /// The filter tool could not be started; the text says why.
    FilterCommandFailed(String),
    /// The filter tool gave no answer: the user chose nothing.
    EmptyFilterResult,
    /// The filter tool answered with something that is no selection. This
    /// shows a broken filter tool and is not to be passed over.
    ProtocolViolation(ProtocolFault),
}

/// The text of the report for an empty answer.
pub open spec fn empty_result_text() -> Seq<char> {
    "filter command did not return any item"@
}

/// The text that introduces the report of a filter tool that did not start.
pub open spec fn command_failed_text() -> Seq<char> {
    "Filter Command Failed "@
}

/// The text of the report for an answer without a comma.
pub open spec fn missing_separator_text() -> Seq<char> {
    "Failed to split fzf stdout at ','"@
}

/// The text of the report for an answer whose id is no integer.
pub open spec fn invalid_id_text() -> Seq<char> {
    "Failed to parse fzf stdout id string to i64"@
}

impl TabError {
    /// Whether the error ends the program abnormally, rather than being
    /// reported and left behind.
    pub open spec fn is_fatal(self) -> bool {
        self is ProtocolViolation
    }

    /// The report of the error, as one line of text.
    pub open spec fn message_spec(self) -> Seq<char> {
        match self {
            TabError::FilterCommandFailed(detail) => command_failed_text() + detail@,
            TabError::EmptyFilterResult => empty_result_text(),
            TabError::ProtocolViolation(ProtocolFault::MissingSeparator) => missing_separator_text(),
            TabError::ProtocolViolation(ProtocolFault::InvalidId) => invalid_id_text(),
        }
    }

    /// Whether the error ends the program abnormally.
    pub fn fatal(&self) -> (fatal: bool)
        ensures
            fatal == self.is_fatal(),
    {
        match self {
            TabError::ProtocolViolation(_) => true,
            _ => false,
        }
    }

    /// The report of the error, as one line of text.
    pub fn message(&self) -> (text: String)
        ensures
            text@ == self.message_spec(),
    {
        match self {
            TabError::FilterCommandFailed(detail) => {
                let mut text = String::from_str("Filter Command Failed ");
                text.append(detail.as_str());
                text
            },
            TabError::EmptyFilterResult => String::from_str(
                "filter command did not return any item",
            ),
            TabError::ProtocolViolation(ProtocolFault::MissingSeparator) => String::from_str(
                "Failed to split fzf stdout at ','",
            ),
            TabError::ProtocolViolation(ProtocolFault::InvalidId) => String::from_str(
                "Failed to parse fzf stdout id string to i64",
            ),
        }
    }
}

} // verus!
