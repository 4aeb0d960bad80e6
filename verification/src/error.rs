//! The ways in which an operation fails.

use vstd::prelude::*;

verus! {

/// A failure, with a message for a human reader.
#[derive(Debug, Clone, PartialEq, Eq)]
pub enum Error {
    /// The bytes on the wire are no well-formed RESP.
    Resp(String),
    /// The server answered with an error of its own.
    Valkey(String),
    /// The library was misused, the reply has an unexpected shape, or the
    /// network failed.
    Client(String),
}

/// The mathematical model of an [`Error`].
pub ghost enum ErrorView {
    Resp(Seq<char>),
    Valkey(Seq<char>),
    Client(Seq<char>),
}

impl View for Error {
    type V = ErrorView;

    open spec fn view(&self) -> ErrorView {
        match self {
            Error::Resp(m) => ErrorView::Resp(m@),
            Error::Valkey(m) => ErrorView::Valkey(m@),
            Error::Client(m) => ErrorView::Client(m@),
        }
    }
}

impl DeepView for Error {
    type V = ErrorView;

    open spec fn deep_view(&self) -> ErrorView {
        self.view()
    }
}

impl ErrorView {
    /// The message that the error carries.
    pub open spec fn message(self) -> Seq<char> {
        match self {
            ErrorView::Resp(m) => m,
            ErrorView::Valkey(m) => m,
            ErrorView::Client(m) => m,
        }
    }
}

impl Error {
    /// The message that the error carries.
    pub fn message(&self) -> (r: String)
        ensures
            r@ == self@.message(),
    {
        match self {
            Error::Resp(m) => m.clone(),
            Error::Valkey(m) => m.clone(),
            Error::Client(m) => m.clone(),
        }
    }
}

} // verus!
