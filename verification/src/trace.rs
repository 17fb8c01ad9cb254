//! The trace of a run, line by line.
//!
//! Each event that is shown becomes one line. The paths of a line are relative to the
//! root they lie under, and quoted as the standard library prints a path for
//! debugging.

use vstd::prelude::*;
use vstd::string::StringExecFns;
use crate::config::{Config, ConfigView};
use crate::event::{EventView, PhotisoEvent};
use crate::path::{trimmed, try_trim_prefix};

verus! {

/// The text that the standard library's `Debug` writes for the path `path`: the path
/// between double quotes, with the characters that need it escaped.
pub uninterp spec fn debug_text(path: Seq<char>) -> Seq<char>;

/// Formats `path` as a `std::path::Path` with `{:?}`. What comes back is given the
/// name `debug_text`; its contents are not stated.
#[verifier::external_body]
fn quote_path(path: &str) -> (quoted: String)
    ensures
        quoted@ == debug_text(path@),
{
    format!("{:?}", std::path::Path::new(path))
}

/// The paths an event speaks of, each relative to its root: the first to the
/// unorganized root, or to the organized root for a file that is in place; the
/// second, the target of a move, to the root of the tree it lies in.
pub open spec fn relative_paths(event: EventView, config: ConfigView) -> (Seq<char>, Seq<char>) {
    match event {
        EventView::DirStarted { dir } => (trimmed(dir, config.unorganized), Seq::empty()),
        EventView::DirFinished { dir } => (trimmed(dir, config.unorganized), Seq::empty()),
        EventView::FileStarted { file } => (trimmed(file, config.unorganized), Seq::empty()),
        EventView::FileFinished { file } => (trimmed(file, config.unorganized), Seq::empty()),
        EventView::FileError { file, error } => (
            trimmed(file, config.unorganized),
            Seq::empty(),
        ),
        EventView::Moved { from, to } => (
            trimmed(from, config.unorganized),
            trimmed(to, config.organized),
        ),
        EventView::NoOp { file } => (trimmed(file, config.organized), Seq::empty()),
        EventView::DuplicateMoved { from, to } => (
            trimmed(from, config.unorganized),
            trimmed(to, config.duplicates),
        ),
        EventView::Skipped { file, reason } => (trimmed(file, config.unorganized), Seq::empty()),
    }
}

/// The line that shows `event`, with `first` and `second` the quoted texts of its
/// paths. The events that close a bracket are not shown.
pub open spec fn line_of(event: EventView, first: Seq<char>, second: Seq<char>) -> Option<
    Seq<char>,
> {
    match event {
        EventView::DirStarted { .. } => Some("Dir: (unorganized)/"@ + first),
        EventView::DirFinished { .. } => None,
        EventView::FileStarted { .. } => Some("  File: (unorganized)/"@ + first),
        EventView::FileFinished { .. } => None,
        EventView::FileError { error, .. } => Some(
            "    Error - "@ + error.message() + ": (unorganized)/"@ + first,
        ),
        EventView::Moved { .. } => Some(
            "    Moved: (unorganized)/"@ + first + " -> (organized)/"@ + second,
        ),
        EventView::NoOp { .. } => Some("    No-op: (organized)/"@ + first),
        EventView::DuplicateMoved { .. } => Some(
            "    Moved: (unorganized)/"@ + first + " -> (duplicates)/"@ + second,
        ),
        EventView::Skipped { reason, .. } => Some(
            "    Skipped - "@ + reason.text() + ": (unorganized)/"@ + first,
        ),
    }
}

/// The line that shows `event`, where `first` and `second` are the texts to show for
/// its paths.
pub fn event_line(event: &PhotisoEvent, first: &str, second: &str) -> (line: Option<String>)
    ensures
        match line {
            Some(text) => line_of(event@, first@, second@) == Some(text@),
            None => line_of(event@, first@, second@) is None,
        },
{
    match event {
        PhotisoEvent::DirStarted { .. } => {
            let mut text = String::from_str("Dir: (unorganized)/");
            text.append(first);
            Some(text)
        },
        PhotisoEvent::DirFinished { .. } => None,
        PhotisoEvent::FileStarted { .. } => {
            let mut text = String::from_str("  File: (unorganized)/");
            text.append(first);
            Some(text)
        },
        PhotisoEvent::FileFinished { .. } => None,
        PhotisoEvent::FileError { error, .. } => {
            let mut text = String::from_str("    Error - ");
            text.append(error.message().as_str());
            text.append(": (unorganized)/");
            text.append(first);
            Some(text)
        },
        PhotisoEvent::Moved { .. } => {
            let mut text = String::from_str("    Moved: (unorganized)/");
            text.append(first);
            text.append(" -> (organized)/");
            text.append(second);
            Some(text)
        },
        PhotisoEvent::NoOp { .. } => {
            let mut text = String::from_str("    No-op: (organized)/");
            text.append(first);
            Some(text)
        },
        PhotisoEvent::DuplicateMoved { .. } => {
            let mut text = String::from_str("    Moved: (unorganized)/");
            text.append(first);
            text.append(" -> (duplicates)/");
            text.append(second);
            Some(text)
        },
        PhotisoEvent::Skipped { reason, .. } => {
            let mut text = String::from_str("    Skipped - ");
            text.append(reason.message());
            text.append(": (unorganized)/");
            text.append(first);
            Some(text)
        },
    }
}

/// The paths of `event`, each cut down to what lies below its root.
pub fn event_paths(event: &PhotisoEvent, config: &Config) -> (paths: (String, String))
    ensures
        (paths.0@, paths.1@) == relative_paths(event@, config@),
{
    let unorganized = config.directories.unorganized.as_str();
    match event {
        PhotisoEvent::DirStarted { dir } => (try_trim_prefix(dir.as_str(), unorganized), String::new()),
        PhotisoEvent::DirFinished { dir } => (
            try_trim_prefix(dir.as_str(), unorganized),
            String::new(),
        ),
        PhotisoEvent::FileStarted { file } => (
            try_trim_prefix(file.as_str(), unorganized),
            String::new(),
        ),
        PhotisoEvent::FileFinished { file } => (
            try_trim_prefix(file.as_str(), unorganized),
            String::new(),
        ),
        PhotisoEvent::FileError { file, .. } => (
            try_trim_prefix(file.as_str(), unorganized),
            String::new(),
        ),
        PhotisoEvent::Moved { from, to } => (
            try_trim_prefix(from.as_str(), unorganized),
            try_trim_prefix(to.as_str(), config.directories.organized.as_str()),
        ),
        PhotisoEvent::NoOp { file } => (
            try_trim_prefix(file.as_str(), config.directories.organized.as_str()),
            String::new(),
        ),
        PhotisoEvent::DuplicateMoved { from, to } => (
            try_trim_prefix(from.as_str(), unorganized),
            try_trim_prefix(to.as_str(), config.directories.duplicates.as_str()),
        ),
        PhotisoEvent::Skipped { file, .. } => (
            try_trim_prefix(file.as_str(), unorganized),
            String::new(),
        ),
    }
}

/// The line of the trace that shows `event`, for the caller to print; `None` for an
/// event that is not shown. The paths are cut down to what lies below their roots and
/// quoted.
pub fn on_photiso_event(event: &PhotisoEvent, config: &Config) -> (line: Option<String>)
    ensures
        ({
            let paths = relative_paths(event@, config@);
            match line {
                Some(text) => line_of(event@, debug_text(paths.0), debug_text(paths.1)) == Some(
                    text@,
                ),
                None => line_of(event@, debug_text(paths.0), debug_text(paths.1)) is None,
            }
        }),
{
    let (first, second) = event_paths(event, config);
    let first_quoted = quote_path(first.as_str());
    let second_quoted = quote_path(second.as_str());
    event_line(event, first_quoted.as_str(), second_quoted.as_str())
}

} // verus!
