//! The ways a request can fail.

use vstd::prelude::*;

verus! {

/// A failed request. Each kind carries a message meant for a person to read.
#[derive(Debug, PartialEq, Eq)]
pub enum Error {
    /// The connection could not be set up or broke down.
    Transport(String),
    /// Bytes of the response were not valid UTF-8 text.
    Encoding(String),
    /// A payload was not valid JSON or did not have the expected shape.
    Decode(String),
}

/// Mathematical model of an [`Error`].
pub enum ErrorView {
    Transport(Seq<char>),
    Encoding(Seq<char>),
    Decode(Seq<char>),
}

impl ErrorView {
    /// The message an error carries, whatever its kind.
    pub open spec fn message(self) -> Seq<char> {
        match self {
            ErrorView::Transport(m) => m,
            ErrorView::Encoding(m) => m,
            ErrorView::Decode(m) => m,
        }
    }
}

impl View for Error {
    type V = ErrorView;

    open spec fn view(&self) -> ErrorView {
        match self {
            Error::Transport(m) => ErrorView::Transport(m@),
            Error::Encoding(m) => ErrorView::Encoding(m@),
            Error::Decode(m) => ErrorView::Decode(m@),
        }
    }
}

impl Error {
    /// A copy of the message this error carries.
    pub fn message(&self) -> (text: String)
        ensures
            text@ == self@.message(),
    {
        match self {
            Error::Transport(m) => m.clone(),
            Error::Encoding(m) => m.clone(),
            Error::Decode(m) => m.clone(),
        }
    }
}

} // verus!
