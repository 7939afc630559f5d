//! The error type of the library's fallible operations.

use vstd::prelude::*;
use crate::text::{join2, owned};

verus! {

/// A failed operation, by the part of the library that failed, with its message.
#[derive(Debug, Clone, PartialEq, Eq)]
pub enum Error {
    Config(String),
    Http(String),
    Database(String),
    Storage(String),
    Validation(String),
    Processing(String),
    Metrics(String),
    Generic(String),
}

/// The content of an error.
pub enum ErrorView {
    Config(Seq<char>),
    Http(Seq<char>),
    Database(Seq<char>),
    Storage(Seq<char>),
    Validation(Seq<char>),
    Processing(Seq<char>),
    Metrics(Seq<char>),
    Generic(Seq<char>),
}

impl View for Error {
    type V = ErrorView;

    open spec fn view(&self) -> ErrorView {
        match self {
            Error::Config(m) => ErrorView::Config(m@),
            Error::Http(m) => ErrorView::Http(m@),
            Error::Database(m) => ErrorView::Database(m@),
            Error::Storage(m) => ErrorView::Storage(m@),
            Error::Validation(m) => ErrorView::Validation(m@),
            Error::Processing(m) => ErrorView::Processing(m@),
            Error::Metrics(m) => ErrorView::Metrics(m@),
            Error::Generic(m) => ErrorView::Generic(m@),
        }
    }
}

impl ErrorView {
    /// The error written out: the name of its part, then the message.
    pub open spec fn text(self) -> Seq<char> {
        match self {
            ErrorView::Config(m) => "Configuration error: "@ + m,
            ErrorView::Http(m) => "HTTP error: "@ + m,
            ErrorView::Database(m) => "Database error: "@ + m,
            ErrorView::Storage(m) => "Storage error: "@ + m,
            ErrorView::Validation(m) => "Validation error: "@ + m,
            ErrorView::Processing(m) => "Processing error: "@ + m,
            ErrorView::Metrics(m) => "Metrics error: "@ + m,
            ErrorView::Generic(m) => "Generic error: "@ + m,
        }
    }
}

impl Error {
    pub fn config(msg: &str) -> (e: Error)
        ensures
            e@ == ErrorView::Config(msg@),
    {
        Error::Config(owned(msg))
    }

    pub fn http(msg: &str) -> (e: Error)
        ensures
            e@ == ErrorView::Http(msg@),
    {
        Error::Http(owned(msg))
    }

    pub fn database(msg: &str) -> (e: Error)
        ensures
            e@ == ErrorView::Database(msg@),
    {
        Error::Database(owned(msg))
    }

    pub fn storage(msg: &str) -> (e: Error)
        ensures
            e@ == ErrorView::Storage(msg@),
    {
        Error::Storage(owned(msg))
    }

    pub fn validation(msg: &str) -> (e: Error)
        ensures
            e@ == ErrorView::Validation(msg@),
    {
        Error::Validation(owned(msg))
    }

    pub fn processing(msg: &str) -> (e: Error)
        ensures
            e@ == ErrorView::Processing(msg@),
    {
        Error::Processing(owned(msg))
    }

    pub fn metrics(msg: &str) -> (e: Error)
        ensures
            e@ == ErrorView::Metrics(msg@),
    {
        Error::Metrics(owned(msg))
    }

    pub fn generic(msg: &str) -> (e: Error)
        ensures
            e@ == ErrorView::Generic(msg@),
    {
        Error::Generic(owned(msg))
    }

    /// The error written out: the name of its part, then the message.
    pub fn to_text(&self) -> (s: String)
        ensures
            s@ == self@.text(),
    {
        match self {
            Error::Config(m) => join2("Configuration error: ", m.as_str()),
            Error::Http(m) => join2("HTTP error: ", m.as_str()),
            Error::Database(m) => join2("Database error: ", m.as_str()),
            Error::Storage(m) => join2("Storage error: ", m.as_str()),
            Error::Validation(m) => join2("Validation error: ", m.as_str()),
            Error::Processing(m) => join2("Processing error: ", m.as_str()),
            Error::Metrics(m) => join2("Metrics error: ", m.as_str()),
            Error::Generic(m) => join2("Generic error: ", m.as_str()),
        }
    }
}

} // verus!
