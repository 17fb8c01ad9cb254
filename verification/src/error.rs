//! What can go wrong while organizing.

use vstd::prelude::*;
use vstd::string::StringExecFns;

verus! {

/// An error of the organizer. The first five carry the message of the collaborator
/// that failed; the others are found by the library itself.
#[derive(Clone, Debug, PartialEq, Eq)]
pub enum PhotisoError {
    /// The configuration cannot be used. Ends the run before it starts.
    Config(String),
    /// A directory could not be listed. Ends the run.
    DirectoryList(String),
    /// No timestamp could be had for a file.
    Metadata(String),
    /// The contents of a file could not be measured or hashed.
    Hash(String),
    /// A file could not be moved.
    Move(String),
    /// A path has no extension to name a destination by.
    NoExtension,
    /// The fields of a timestamp name no moment that exists.
    InvalidTimestamp,
    /// Every conflict index up to the last one is taken.
    ConflictLimit,
    /// A reply does not answer the request that was made.
    UnexpectedReply,
}

/// A `PhotisoError` with its messages as sequences of characters.
pub enum ErrorView {
    Config(Seq<char>),
    DirectoryList(Seq<char>),
    Metadata(Seq<char>),
    Hash(Seq<char>),
    Move(Seq<char>),
    NoExtension,
    InvalidTimestamp,
    ConflictLimit,
    UnexpectedReply,
}

impl View for PhotisoError {
    type V = ErrorView;

    open spec fn view(&self) -> ErrorView {
        match *self {
            PhotisoError::Config(message) => ErrorView::Config(message@),
            PhotisoError::DirectoryList(message) => ErrorView::DirectoryList(message@),
            PhotisoError::Metadata(message) => ErrorView::Metadata(message@),
            PhotisoError::Hash(message) => ErrorView::Hash(message@),
            PhotisoError::Move(message) => ErrorView::Move(message@),
            PhotisoError::NoExtension => ErrorView::NoExtension,
            PhotisoError::InvalidTimestamp => ErrorView::InvalidTimestamp,
            PhotisoError::ConflictLimit => ErrorView::ConflictLimit,
            PhotisoError::UnexpectedReply => ErrorView::UnexpectedReply,
        }
    }
}

impl ErrorView {
    /// Whether the error concerns one file only, so that the run goes on with the next.
    pub open spec fn is_file_scoped(self) -> bool {
        !(self is Config) && !(self is DirectoryList)
    }

    /// The error in words.
    pub open spec fn message(self) -> Seq<char> {
        match self {
            ErrorView::Config(message) => message,
            ErrorView::DirectoryList(message) => message,
            ErrorView::Metadata(message) => message,
            ErrorView::Hash(message) => message,
            ErrorView::Move(message) => message,
            ErrorView::NoExtension => "the file has no extension"@,
            ErrorView::InvalidTimestamp => "the timestamp names no moment that exists"@,
            ErrorView::ConflictLimit => "every conflict index is taken"@,
            ErrorView::UnexpectedReply => "the reply does not answer the request"@,
        }
    }
}

impl PhotisoError {
    /// Whether the error concerns one file only: the run reports it and goes on. A
    /// configuration error and a directory that cannot be listed end the run.
    pub fn is_file_scoped(&self) -> (b: bool)
        ensures
            b == self@.is_file_scoped(),
    {
        match self {
            PhotisoError::Config(_) => false,
            PhotisoError::DirectoryList(_) => false,
            _ => true,
        }
    }

    /// The error in words.
    pub fn message(&self) -> (text: String)
        ensures
            text@ == self@.message(),
    {
        match self {
            PhotisoError::Config(message) => message.clone(),
            PhotisoError::DirectoryList(message) => message.clone(),
            PhotisoError::Metadata(message) => message.clone(),
            PhotisoError::Hash(message) => message.clone(),
            PhotisoError::Move(message) => message.clone(),
            PhotisoError::NoExtension => String::from_str("the file has no extension"),
            PhotisoError::InvalidTimestamp => String::from_str(
                "the timestamp names no moment that exists",
            ),
            PhotisoError::ConflictLimit => String::from_str("every conflict index is taken"),
            PhotisoError::UnexpectedReply => String::from_str(
                "the reply does not answer the request",
            ),
        }
    }
}

} // verus!
