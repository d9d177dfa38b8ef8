//! The failures that the library reports.

use vstd::prelude::*;
use vstd::string::*;
use crate::text::{append_decimal, decimal};

verus! {

/// What went wrong, with the input that caused it.
#[derive(Debug, Clone, PartialEq, Eq)]
pub enum WCOError {
    /// The roster page does not hold exactly one title; carries the number of
    /// titles found.
    StructuralParse(usize),
    /// A code that names no event of the catalog; carries the code.
    UnknownEvent(String),
    /// A text that is no time; carries the text.
    MalformedTime(String),
    /// A name that selects no record source; carries the name.
    UnknownSource(String),
    /// The resource of one competitor could not be had; carries the reason.
    Retrieval(String),
    /// The report could not be written; carries the reason.
    Render(String),
}

/// What a failure is to the contracts of this library.
pub enum WCOErrorView {
    /// The roster page holds this number of titles, and not one.
    StructuralParse(nat),
    /// This code names no event of the catalog.
    UnknownEvent(Seq<char>),
    /// This text is no time.
    MalformedTime(Seq<char>),
    /// This name selects no record source.
    UnknownSource(Seq<char>),
    /// The resource of one competitor could not be had, for this reason.
    Retrieval(Seq<char>),
    /// The report could not be written, for this reason.
    Render(Seq<char>),
}

impl View for WCOError {
    type V = WCOErrorView;

    open spec fn view(&self) -> WCOErrorView {
        match self {
            WCOError::StructuralParse(found) => WCOErrorView::StructuralParse(*found as nat),
            WCOError::UnknownEvent(code) => WCOErrorView::UnknownEvent(code@),
            WCOError::MalformedTime(text) => WCOErrorView::MalformedTime(text@),
            WCOError::UnknownSource(name) => WCOErrorView::UnknownSource(name@),
            WCOError::Retrieval(reason) => WCOErrorView::Retrieval(reason@),
            WCOError::Render(reason) => WCOErrorView::Render(reason@),
        }
    }
}

impl WCOError {
    /// The text of `message`.
    pub open spec fn message_spec(self) -> Seq<char> {
        match self {
            WCOError::StructuralParse(found) => "Expected competition title to be the only h3 element, but there were "@
                + decimal(found as nat),
            WCOError::UnknownEvent(code) => "Failed to parse \""@ + code@ + "\" into an event"@,
            WCOError::MalformedTime(text) => "Cannot parse time from string \""@ + text@ + "\""@,
            WCOError::UnknownSource(name) => "Invalid source specified: \""@ + name@ + "\""@,
            WCOError::Retrieval(reason) => "Network error: "@ + reason@,
            WCOError::Render(reason) => "Plotting error: "@ + reason@,
        }
    }

    /// A sentence for the user that says what failed.
    pub fn message(&self) -> (text: String)
        ensures
            text@ == self.message_spec(),
    {
        match self {
            WCOError::StructuralParse(found) => {
                let mut text = String::from_str(
                    "Expected competition title to be the only h3 element, but there were ",
                );
                append_decimal(&mut text, *found as u64);
                text
            },
            WCOError::UnknownEvent(code) => {
                let mut text = String::from_str("Failed to parse \"");
                text.append(code.as_str());
                text.append("\" into an event");
                text
            },
            WCOError::MalformedTime(input) => {
                let mut text = String::from_str("Cannot parse time from string \"");
                text.append(input.as_str());
                text.append("\"");
                text
            },
            WCOError::UnknownSource(name) => {
                let mut text = String::from_str("Invalid source specified: \"");
                text.append(name.as_str());
                text.append("\"");
                text
            },
            WCOError::Retrieval(reason) => {
                let mut text = String::from_str("Network error: ");
                text.append(reason.as_str());
                text
            },
            WCOError::Render(reason) => {
                let mut text = String::from_str("Plotting error: ");
                text.append(reason.as_str());
                text
            },
        }
    }
}

} // verus!
