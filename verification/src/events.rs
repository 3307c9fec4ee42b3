//! The values a parse produces: events, warnings, and fatal errors.

use vstd::prelude::*;

verus! {

/// A structural event, emitted in the order discovered.
#[derive(Debug, PartialEq, Eq)]
pub enum Event {
    /// A selector group opens a rule scope; one string per comma-separated
    /// alternative.
    StartSelector(Vec<String>),
    /// The selector group most recently opened and not yet closed is closed.
    EndSelector(Vec<String>),
    /// A single declaration: property name and raw value text.
    Rule(String, String),
    /// The text strictly between `/*` and the first following `*/`.
    Comment(String),
}

/// The mathematical shape of an [`Event`]: the same four variants over
/// character sequences.
pub enum EventV {
    StartSelector(Seq<Seq<char>>),
    EndSelector(Seq<Seq<char>>),
    Rule(Seq<char>, Seq<char>),
    Comment(Seq<char>),
}

impl View for Event {
    type V = EventV;

    open spec fn view(&self) -> EventV {
        match self {
            Event::StartSelector(v) => EventV::StartSelector(v.deep_view()),
            Event::EndSelector(v) => EventV::EndSelector(v.deep_view()),
            Event::Rule(n, v) => EventV::Rule(n@, v@),
            Event::Comment(t) => EventV::Comment(t@),
        }
    }
}

impl DeepView for Event {
    type V = EventV;

    open spec fn deep_view(&self) -> EventV {
        self.view()
    }
}

/// A recoverable fault: reported, then parsing continues with best-effort
/// state. No warning enters the event sequence.
#[derive(Debug, Clone, Copy, PartialEq, Eq, Structural)]
pub enum Warning {
    /// A `}` was met while no selector scope was open; nothing is emitted and
    /// the stack is left untouched.
    UnpairedCloseSelector,
    /// A declaration's property name was not followed by `:`; the enclosing
    /// block's declaration loop stops at that point.
    MissingColon,
}

/// An unrecoverable fault: the parse stops and reports it to the caller.
#[derive(Debug, Clone, Copy, PartialEq, Eq, Structural)]
pub enum LexError {
    /// The input ended inside a declaration block or an unterminated comment.
    UnexpectedEndOfInput,
    /// A character at dispatch position that opens none of the recognized
    /// constructs; consuming nothing here would loop forever.
    UnrecognizedCharacter(char),
}

} // verus!
