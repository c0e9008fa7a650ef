//! The error type of the library.
use vstd::prelude::*;
use crate::text::{decimal, push_decimal, push_text};

verus! {

/// What can go wrong while building, reading or combining values.
#[derive(Debug)]
pub enum Error {
    /// Malformed input text, or a number that no variant can hold.
    Syntax(String),
    /// A value of one type stood where another was wanted.
    ExpectedType { expected: String, found: String },
    /// A required field is absent.
    MissingField(String),
    /// An array index beyond the last element.
    OutOfBounds(usize),
    /// Any other failure, described by its message.
    Custom(String),
    /// A failure of reading or writing, by its message.
    Io(String),
    /// A failure reported by the JSON text parser, by its message.
    Json(String),
}

/// The mathematical content of an [`Error`]: its kind and its texts.
pub enum ErrorView {
    Syntax(Seq<char>),
    ExpectedType { expected: Seq<char>, found: Seq<char> },
    MissingField(Seq<char>),
    OutOfBounds(usize),
    Custom(Seq<char>),
    Io(Seq<char>),
    Json(Seq<char>),
}

impl ErrorView {
    /// The message that [`Error::to_string`] writes for an error with this content.
    pub open spec fn message(self) -> Seq<char> {
        match self {
            ErrorView::Syntax(msg) => "Syntax error: "@ + msg,
            ErrorView::ExpectedType { expected, found } => "Expected "@ + expected + ", found "@
                + found,
            ErrorView::MissingField(field) => "Missing field: "@ + field,
            ErrorView::OutOfBounds(index) => "Index out of bounds: "@ + decimal(index as nat),
            ErrorView::Custom(msg) => msg,
            ErrorView::Io(msg) => "IO error: "@ + msg,
            ErrorView::Json(msg) => "JSON error: "@ + msg,
        }
    }
}

impl View for Error {
    type V = ErrorView;

    open spec fn view(&self) -> ErrorView {
        match *self {
            Error::Syntax(msg) => ErrorView::Syntax(msg@),
            Error::ExpectedType { expected, found } => ErrorView::ExpectedType {
                expected: expected@,
                found: found@,
            },
            Error::MissingField(field) => ErrorView::MissingField(field@),
            Error::OutOfBounds(index) => ErrorView::OutOfBounds(index),
            Error::Custom(msg) => ErrorView::Custom(msg@),
            Error::Io(msg) => ErrorView::Io(msg@),
            Error::Json(msg) => ErrorView::Json(msg@),
        }
    }
}

impl Error {
    /// A syntax error with the given message.
    pub fn syntax(msg: &str) -> (e: Error)
        ensures
            e@ == ErrorView::Syntax(msg@),
    {
        Error::Syntax(String::from_str(msg))
    }

    /// A type mismatch: `expected` was wanted, `found` was there.
    pub fn expected_type(expected: &str, found: &str) -> (e: Error)
        ensures
            e@ == (ErrorView::ExpectedType { expected: expected@, found: found@ }),
    {
        Error::ExpectedType {
            expected: String::from_str(expected),
            found: String::from_str(found),
        }
    }

    /// A missing field, by its name.
    pub fn missing_field(field: &str) -> (e: Error)
        ensures
            e@ == ErrorView::MissingField(field@),
    {
        Error::MissingField(String::from_str(field))
    }

    /// An index beyond the end of an array.
    pub fn out_of_bounds(index: usize) -> (e: Error)
        ensures
            e@ == ErrorView::OutOfBounds(index),
    {
        Error::OutOfBounds(index)
    }

    /// An error that only carries a message.
    pub fn custom(msg: &str) -> (e: Error)
        ensures
            e@ == ErrorView::Custom(msg@),
    {
        Error::Custom(String::from_str(msg))
    }

    /// An input or output failure, by its message.
    pub fn io(msg: &str) -> (e: Error)
        ensures
            e@ == ErrorView::Io(msg@),
    {
        Error::Io(String::from_str(msg))
    }

    /// A failure of the JSON text parser, by its message.
    pub fn json(msg: &str) -> (e: Error)
        ensures
            e@ == ErrorView::Json(msg@),
    {
        Error::Json(String::from_str(msg))
    }

    /// The message of this error, as a reader sees it.
    pub fn to_string(&self) -> (s: String)
        ensures
            s@ == self@.message(),
    {
        let mut out = String::new();
        match self {
            Error::Syntax(msg) => {
                push_text(&mut out, "Syntax error: ");
                push_text(&mut out, msg.as_str());
            },
            Error::ExpectedType { expected, found } => {
                push_text(&mut out, "Expected ");
                push_text(&mut out, expected.as_str());
                push_text(&mut out, ", found ");
                push_text(&mut out, found.as_str());
            },
            Error::MissingField(field) => {
                push_text(&mut out, "Missing field: ");
                push_text(&mut out, field.as_str());
            },
            Error::OutOfBounds(index) => {
                push_text(&mut out, "Index out of bounds: ");
                push_decimal(&mut out, *index as u64);
            },
            Error::Custom(msg) => {
                push_text(&mut out, msg.as_str());
            },
            Error::Io(msg) => {
                push_text(&mut out, "IO error: ");
                push_text(&mut out, msg.as_str());
            },
            Error::Json(msg) => {
                push_text(&mut out, "JSON error: ");
                push_text(&mut out, msg.as_str());
            },
        }
        out
    }
}

} // verus!
