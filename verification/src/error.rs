//! The error type shared by the protocol, storage and persistence layers.

use vstd::prelude::*;

verus! {

/// An error raised while serving a request.
#[derive(Debug)]
pub enum FerrumError {
    /// A network I/O failure, carried as the text the I/O layer reported.
    IoError(String),
    /// Malformed input from a client.
    ParseError(String),
    /// A storage operation failed.
    StorageError(String),
    /// Writing to or replaying the append-only file failed.
    PersistenceError(String),
}

/// The abstract value of a [`FerrumError`]: its kind and its message.
pub enum FerrumErrorView {
    IoError(Seq<char>),
    ParseError(Seq<char>),
    StorageError(Seq<char>),
    PersistenceError(Seq<char>),
}

impl View for FerrumError {
    type V = FerrumErrorView;

    open spec fn view(&self) -> FerrumErrorView {
        match self {
            FerrumError::IoError(m) => FerrumErrorView::IoError(m@),
            FerrumError::ParseError(m) => FerrumErrorView::ParseError(m@),
            FerrumError::StorageError(m) => FerrumErrorView::StorageError(m@),
            FerrumError::PersistenceError(m) => FerrumErrorView::PersistenceError(m@),
        }
    }
}

/// The human-readable text of an error: a prefix naming its kind, then its
/// message. These texts are this library's own wording.
pub open spec fn error_text(e: FerrumErrorView) -> Seq<char> {
    match e {
        FerrumErrorView::IoError(m) => "IO error: "@ + m,
        FerrumErrorView::ParseError(m) => "parse error: "@ + m,
        FerrumErrorView::StorageError(m) => "storage error: "@ + m,
        FerrumErrorView::PersistenceError(m) => "persistence error: "@ + m,
    }
}

impl FerrumError {
    /// The human-readable text of this error: a prefix naming its kind
    /// (this library's own wording), then its message.
    pub fn to_text(&self) -> (text: String)
        ensures
            text@ == error_text(self@),
    {
        match self {
            FerrumError::IoError(m) => String::from_str("IO error: ").concat(m.as_str()),
            FerrumError::ParseError(m) => String::from_str("parse error: ").concat(m.as_str()),
            FerrumError::StorageError(m) => String::from_str("storage error: ").concat(m.as_str()),
            FerrumError::PersistenceError(m) => String::from_str("persistence error: ").concat(
                m.as_str(),
            ),
        }
    }
}

} // verus!
