//! What the organizer reports while it works.

use vstd::prelude::*;
use crate::classifier::SkipReason;
use crate::error::{ErrorView, PhotisoError};

verus! {

/// One step of the trace of a run. Every visit of a directory is bracketed by
/// `DirStarted` and `DirFinished`, every visit of a file by `FileStarted` and
/// `FileFinished`, with one of the other events between them.
#[derive(Clone, Debug, PartialEq, Eq)]
pub enum PhotisoEvent {
    DirStarted { dir: String },
    DirFinished { dir: String },
    FileStarted { file: String },
    FileFinished { file: String },
    /// The file could not be organized and stays where it is.
    FileError { file: String, error: PhotisoError },
    /// The file went to its place in the organized tree.
    Moved { from: String, to: String },
    /// The file already is where it belongs.
    NoOp { file: String },
    /// The file went to the duplicates tree: its contents are already organized.
    DuplicateMoved { from: String, to: String },
    /// The file is not handled.
    Skipped { file: String, reason: SkipReason },
}

/// A `PhotisoEvent` with its paths as sequences of characters.
pub enum EventView {
    DirStarted { dir: Seq<char> },
    DirFinished { dir: Seq<char> },
    FileStarted { file: Seq<char> },
    FileFinished { file: Seq<char> },
    FileError { file: Seq<char>, error: ErrorView },
    Moved { from: Seq<char>, to: Seq<char> },
    NoOp { file: Seq<char> },
    DuplicateMoved { from: Seq<char>, to: Seq<char> },
    Skipped { file: Seq<char>, reason: SkipReason },
}

impl View for PhotisoEvent {
    type V = EventView;

    open spec fn view(&self) -> EventView {
        match *self {
            PhotisoEvent::DirStarted { dir } => EventView::DirStarted { dir: dir@ },
            PhotisoEvent::DirFinished { dir } => EventView::DirFinished { dir: dir@ },
            PhotisoEvent::FileStarted { file } => EventView::FileStarted { file: file@ },
            PhotisoEvent::FileFinished { file } => EventView::FileFinished { file: file@ },
            PhotisoEvent::FileError { file, error } => EventView::FileError {
                file: file@,
                error: error@,
            },
            PhotisoEvent::Moved { from, to } => EventView::Moved { from: from@, to: to@ },
            PhotisoEvent::NoOp { file } => EventView::NoOp { file: file@ },
            PhotisoEvent::DuplicateMoved { from, to } => EventView::DuplicateMoved {
                from: from@,
                to: to@,
            },
            PhotisoEvent::Skipped { file, reason } => EventView::Skipped { file: file@, reason },
        }
    }
}

impl EventView {
    /// Whether the event is the one that closes the visit of a file between
    /// `FileStarted` and `FileFinished`.
    pub open spec fn is_terminal(self) -> bool {
        self is Moved || self is DuplicateMoved || self is NoOp || self is Skipped
            || self is FileError
    }
}

/// The views of a list of events.
pub open spec fn events_view(events: Seq<PhotisoEvent>) -> Seq<EventView> {
    events.map_values(|e: PhotisoEvent| e@)
}

} // verus!
