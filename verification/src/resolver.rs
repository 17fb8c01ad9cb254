//! Finding the place of one file.
//!
//! The organizer never touches the file system itself. It asks its caller to do one
//! thing at a time (a `Request`), is told what came of it (a `Reply`), and decides what
//! comes next. `organize_file` is that decision: from the state of a file's visit and
//! the last reply to the next state, the events to report and the next request.
//!
//! The search walks the conflict indices from 0. The file is in place where the
//! candidate is its own path; the candidate is taken where nothing is there; where a
//! file of the same length and digest is there, the search starts again in the
//! duplicates tree; where another file is there, the next index is tried.

use vstd::prelude::*;
use vstd::string::StringExecFns;
use crate::classifier::{exempt, is_exempt, is_photo_file, photo_file, SkipReason};
use crate::config::{Config, ConfigView};
use crate::error::{ErrorView, PhotisoError};
use crate::event::{events_view, EventView, PhotisoEvent};
use crate::naming::{
    duplicates_path,
    get_photo_destination_path,
    get_photo_duplicates_path,
    organized_path,
};
use crate::path::extension_of;
use crate::text::same_text;
use crate::timestamp::Timestamp;

verus! {

/// The tree a place is looked for in, with what names the file there.
#[derive(Clone, Debug, PartialEq, Eq)]
pub enum Scheme {
    /// The organized tree: the file is named by its timestamp.
    Organized,
    /// The duplicates tree: the file is named by the digest of its contents.
    Duplicates { digest: String },
}

pub enum SchemeView {
    Organized,
    Duplicates { digest: Seq<char> },
}

impl View for Scheme {
    type V = SchemeView;

    open spec fn view(&self) -> SchemeView {
        match *self {
            Scheme::Organized => SchemeView::Organized,
            Scheme::Duplicates { digest } => SchemeView::Duplicates { digest: digest@ },
        }
    }
}

/// How far the visit of a file has come: what was asked last, and what the answer is
/// needed for.
#[derive(Clone, Debug, PartialEq, Eq)]
pub enum FileState {
    /// Nothing has been asked yet.
    Start,
    /// The timestamp of the file was asked for.
    AwaitTimestamp,
    /// It was asked whether the candidate of this index exists.
    AwaitProbe { scheme: Scheme, timestamp: Timestamp, conflict: u32 },
    /// The lengths of the file and of the occupant of its candidate were asked for.
    AwaitLengths { timestamp: Timestamp, conflict: u32 },
    /// Their digests were asked for; the lengths are those that were measured.
    AwaitDigests { timestamp: Timestamp, conflict: u32, source_length: u64, other_length: u64 },
    /// The move to `to` was asked for.
    AwaitMove { to: String, duplicate: bool },
    /// The visit is over.
    Done,
}

pub enum StateView {
    Start,
    AwaitTimestamp,
    AwaitProbe { scheme: SchemeView, timestamp: Timestamp, conflict: u32 },
    AwaitLengths { timestamp: Timestamp, conflict: u32 },
    AwaitDigests { timestamp: Timestamp, conflict: u32, source_length: u64, other_length: u64 },
    AwaitMove { to: Seq<char>, duplicate: bool },
    Done,
}

impl View for FileState {
    type V = StateView;

    open spec fn view(&self) -> StateView {
        match *self {
            FileState::Start => StateView::Start,
            FileState::AwaitTimestamp => StateView::AwaitTimestamp,
            FileState::AwaitProbe { scheme, timestamp, conflict } => StateView::AwaitProbe {
                scheme: scheme@,
                timestamp,
                conflict,
            },
            FileState::AwaitLengths { timestamp, conflict } => StateView::AwaitLengths {
                timestamp,
                conflict,
            },
            FileState::AwaitDigests {
                timestamp,
                conflict,
                source_length,
                other_length,
            } => StateView::AwaitDigests { timestamp, conflict, source_length, other_length },
            FileState::AwaitMove { to, duplicate } => StateView::AwaitMove { to: to@, duplicate },
            FileState::Done => StateView::Done,
        }
    }
}

/// What the caller is to do next for the file that is visited.
#[derive(Clone, Debug, PartialEq, Eq)]
pub enum Request {
    /// Find the best timestamp of the file.
    ResolveTimestamp,
    /// See whether anything exists at `path`.
    Probe { path: String },
    /// Measure the length of the file and of the file at `path`.
    MeasureLengths { path: String },
    /// Compute the digest of the file and of the file at `path`.
    ComputeDigests { path: String },
    /// Create the missing directories above `to`, and rename the file to `to`.
    Move { to: String },
    /// Nothing: the visit is over.
    Done,
}

pub enum RequestView {
    ResolveTimestamp,
    Probe { path: Seq<char> },
    MeasureLengths { path: Seq<char> },
    ComputeDigests { path: Seq<char> },
    Move { to: Seq<char> },
    Done,
}

impl View for Request {
    type V = RequestView;

    open spec fn view(&self) -> RequestView {
        match *self {
            Request::ResolveTimestamp => RequestView::ResolveTimestamp,
            Request::Probe { path } => RequestView::Probe { path: path@ },
            Request::MeasureLengths { path } => RequestView::MeasureLengths { path: path@ },
            Request::ComputeDigests { path } => RequestView::ComputeDigests { path: path@ },
            Request::Move { to } => RequestView::Move { to: to@ },
            Request::Done => RequestView::Done,
        }
    }
}

/// What came of the last request.
#[derive(Clone, Debug, PartialEq, Eq)]
pub enum Reply {
    /// Opens the visit: whether the entry exists as a regular file.
    Begin { is_regular_file: bool },
    /// The best timestamp of the file.
    Timestamp(Timestamp),
    /// Whether something exists at the path that was probed.
    Exists(bool),
    /// The length of the file, and of the file it was measured against.
    Lengths { source_length: u64, other_length: u64 },
    /// The digest of the file, and of the file it was measured against.
    Digests { source_digest: String, other_digest: String },
    /// The file is at its new place.
    Moved,
    /// The request could not be carried out.
    Failed(String),
}

pub enum ReplyView {
    Begin { is_regular_file: bool },
    Timestamp(Timestamp),
    Exists(bool),
    Lengths { source_length: u64, other_length: u64 },
    Digests { source_digest: Seq<char>, other_digest: Seq<char> },
    Moved,
    Failed(Seq<char>),
}

impl View for Reply {
    type V = ReplyView;

    open spec fn view(&self) -> ReplyView {
        match *self {
            Reply::Begin { is_regular_file } => ReplyView::Begin { is_regular_file },
            Reply::Timestamp(timestamp) => ReplyView::Timestamp(timestamp),
            Reply::Exists(exists) => ReplyView::Exists(exists),
            Reply::Lengths { source_length, other_length } => ReplyView::Lengths {
                source_length,
                other_length,
            },
            Reply::Digests { source_digest, other_digest } => ReplyView::Digests {
                source_digest: source_digest@,
                other_digest: other_digest@,
            },
            Reply::Moved => ReplyView::Moved,
            Reply::Failed(message) => ReplyView::Failed(message@),
        }
    }
}

/// One decision: the state to go on from, the events to report now, in order, and what
/// to do next.
#[derive(Clone, Debug, PartialEq, Eq)]
pub struct Step {
    pub state: FileState,
    pub events: Vec<PhotisoEvent>,
    pub request: Request,
}

pub struct StepView {
    pub state: StateView,
    pub events: Seq<EventView>,
    pub request: RequestView,
}

impl View for Step {
    type V = StepView;

    open spec fn view(&self) -> StepView {
        StepView {
            state: self.state@,
            events: events_view(self.events@),
            request: self.request@,
        }
    }
}

/// The candidate of `source` for a conflict index: its place in the organized tree, or
/// in the duplicates tree under the digest of the scheme. There is none for a path
/// without an extension, nor for a timestamp that names no moment.
pub open spec fn place(
    source: Seq<char>,
    config: ConfigView,
    scheme: SchemeView,
    timestamp: Timestamp,
    conflict: nat,
) -> Result<Seq<char>, ErrorView> {
    match extension_of(source) {
        None => Err(ErrorView::NoExtension),
        Some(extension) => if !timestamp.is_valid() {
            Err(ErrorView::InvalidTimestamp)
        } else {
            match scheme {
                SchemeView::Organized => Ok(
                    organized_path(config.organized, extension, timestamp, conflict),
                ),
                SchemeView::Duplicates { digest } => Ok(
                    duplicates_path(config.duplicates, extension, timestamp, digest, conflict),
                ),
            }
        },
    }
}

/// The digest of two files that count as the same: they have the same length and the
/// same digest.
pub open spec fn same_contents(
    x_length: u64,
    y_length: u64,
    x_hash: Seq<char>,
    y_hash: Seq<char>,
) -> Option<Seq<char>> {
    if x_length == y_length && x_hash == y_hash {
        Some(x_hash)
    } else {
        None
    }
}

/// The step that ends the visit of `source` with `terminal`.
pub open spec fn finish(source: Seq<char>, terminal: EventView) -> StepView {
    StepView {
        state: StateView::Done,
        events: seq![terminal, EventView::FileFinished { file: source }],
        request: RequestView::Done,
    }
}

/// The step that ends the visit of `source` with an error.
pub open spec fn failure(source: Seq<char>, error: ErrorView) -> StepView {
    finish(source, EventView::FileError { file: source, error })
}

/// `step` with the opening event of the visit put first.
pub open spec fn opened(source: Seq<char>, step: StepView) -> StepView {
    StepView {
        state: step.state,
        events: seq![EventView::FileStarted { file: source }] + step.events,
        request: step.request,
    }
}

/// The step that tries the candidate of one conflict index: the visit ends where the
/// candidate is the path of the file itself, and else the candidate is probed.
pub open spec fn probe(
    source: Seq<char>,
    config: ConfigView,
    scheme: SchemeView,
    timestamp: Timestamp,
    conflict: u32,
) -> StepView {
    match place(source, config, scheme, timestamp, conflict as nat) {
        Err(error) => failure(source, error),
        Ok(path) => if path == source {
            finish(source, EventView::NoOp { file: source })
        } else {
            StepView {
                state: StateView::AwaitProbe { scheme, timestamp, conflict },
                events: Seq::empty(),
                request: RequestView::Probe { path },
            }
        },
    }
}

/// The step that goes on to the index after `conflict`; after the last index the visit
/// ends with an error.
pub open spec fn probe_next(
    source: Seq<char>,
    config: ConfigView,
    scheme: SchemeView,
    timestamp: Timestamp,
    conflict: u32,
) -> StepView {
    if conflict == u32::MAX {
        failure(source, ErrorView::ConflictLimit)
    } else {
        probe(source, config, scheme, timestamp, (conflict + 1) as u32)
    }
}

/// The first step of a visit: an entry that is no photo is skipped, so is a photo
/// with the exemption marker, and for any other the timestamp is asked.
pub open spec fn begin(source: Seq<char>, is_regular_file: bool) -> StepView {
    if !photo_file(source, is_regular_file) {
        opened(
            source,
            finish(source, EventView::Skipped { file: source, reason: SkipReason::NotAPhoto }),
        )
    } else if exempt(source) {
        opened(
            source,
            finish(
                source,
                EventView::Skipped { file: source, reason: SkipReason::ExemptionMarker },
            ),
        )
    } else {
        StepView {
            state: StateView::AwaitTimestamp,
            events: seq![EventView::FileStarted { file: source }],
            request: RequestView::ResolveTimestamp,
        }
    }
}

/// What a candidate that is free leads to: the move to it.
pub open spec fn claim(source: Seq<char>, path: Seq<char>, scheme: SchemeView) -> StepView {
    StepView {
        state: StateView::AwaitMove { to: path, duplicate: scheme is Duplicates },
        events: Seq::empty(),
        request: RequestView::Move { to: path },
    }
}

/// The decision of `organize_file`.
pub open spec fn step_spec(
    source: Seq<char>,
    config: ConfigView,
    state: StateView,
    reply: ReplyView,
) -> StepView {
    match state {
        StateView::Start => match reply {
            ReplyView::Begin { is_regular_file } => begin(source, is_regular_file),
            _ => opened(source, failure(source, ErrorView::UnexpectedReply)),
        },
        StateView::AwaitTimestamp => match reply {
            ReplyView::Timestamp(timestamp) => probe(
                source,
                config,
                SchemeView::Organized,
                timestamp,
                0,
            ),
            ReplyView::Failed(message) => failure(source, ErrorView::Metadata(message)),
            _ => failure(source, ErrorView::UnexpectedReply),
        },
        StateView::AwaitProbe { scheme, timestamp, conflict } => match reply {
            ReplyView::Exists(exists) => match place(
                source,
                config,
                scheme,
                timestamp,
                conflict as nat,
            ) {
                Err(error) => failure(source, error),
                Ok(path) => if !exists {
                    claim(source, path, scheme)
                } else if scheme is Organized {
                    StepView {
                        state: StateView::AwaitLengths { timestamp, conflict },
                        events: Seq::empty(),
                        request: RequestView::MeasureLengths { path },
                    }
                } else {
                    probe_next(source, config, scheme, timestamp, conflict)
                },
            },
            ReplyView::Failed(message) => failure(source, ErrorView::Move(message)),
            _ => failure(source, ErrorView::UnexpectedReply),
        },
        StateView::AwaitLengths { timestamp, conflict } => match reply {
            ReplyView::Lengths { source_length, other_length } => match place(
                source,
                config,
                SchemeView::Organized,
                timestamp,
                conflict as nat,
            ) {
                Err(error) => failure(source, error),
                Ok(path) => if source_length == other_length {
                    StepView {
                        state: StateView::AwaitDigests {
                            timestamp,
                            conflict,
                            source_length,
                            other_length,
                        },
                        events: Seq::empty(),
                        request: RequestView::ComputeDigests { path },
                    }
                } else {
                    probe_next(source, config, SchemeView::Organized, timestamp, conflict)
                },
            },
            ReplyView::Failed(message) => failure(source, ErrorView::Hash(message)),
            _ => failure(source, ErrorView::UnexpectedReply),
        },
        StateView::AwaitDigests {
            timestamp,
            conflict,
            source_length,
            other_length,
        } => match reply {
            ReplyView::Digests { source_digest, other_digest } => match same_contents(
                source_length,
                other_length,
                source_digest,
                other_digest,
            ) {
                Some(digest) => probe(
                    source,
                    config,
                    SchemeView::Duplicates { digest },
                    timestamp,
                    0,
                ),
                None => probe_next(source, config, SchemeView::Organized, timestamp, conflict),
            },
            ReplyView::Failed(message) => failure(source, ErrorView::Hash(message)),
            _ => failure(source, ErrorView::UnexpectedReply),
        },
        StateView::AwaitMove { to, duplicate } => match reply {
            ReplyView::Moved => finish(
                source,
                if duplicate {
                    EventView::DuplicateMoved { from: source, to }
                } else {
                    EventView::Moved { from: source, to }
                },
            ),
            ReplyView::Failed(message) => failure(source, ErrorView::Move(message)),
            _ => failure(source, ErrorView::UnexpectedReply),
        },
        StateView::Done => StepView {
            state: StateView::Done,
            events: Seq::empty(),
            request: RequestView::Done,
        },
    }
}

/// Whether two files count as the same: they have the same length and the same digest.
/// Gives the digest they share.
pub fn are_same_file_contents(x_length: u64, y_length: u64, x_hash: &str, y_hash: &str) -> (same:
    Option<String>)
    ensures
        match same {
            Some(digest) => same_contents(x_length, y_length, x_hash@, y_hash@) == Some(digest@),
            None => same_contents(x_length, y_length, x_hash@, y_hash@) is None,
        },
{
    if x_length != y_length {
        return None;
    }
    if !same_text(x_hash, y_hash) {
        return None;
    }
    Some(String::from_str(x_hash))
}

/// The candidate of the file at `file_path` for one conflict index under `scheme`.
pub fn candidate_path(
    file_path: &str,
    scheme: &Scheme,
    date_time: &Timestamp,
    conflict: u32,
    config: &Config,
) -> (found: Result<String, PhotisoError>)
    ensures
        match found {
            Ok(path) => place(file_path@, config@, scheme@, *date_time, conflict as nat) == Ok::<
                Seq<char>,
                ErrorView,
            >(path@),
            Err(error) => place(file_path@, config@, scheme@, *date_time, conflict as nat)
                == Err::<Seq<char>, ErrorView>(error@),
        },
{
    match scheme {
        Scheme::Organized => get_photo_destination_path(file_path, date_time, conflict, config),
        Scheme::Duplicates { digest } => get_photo_duplicates_path(
            file_path,
            date_time,
            digest.as_str(),
            conflict,
            config,
        ),
    }
}

fn finish_step(file_path: &str, terminal: PhotisoEvent) -> (step: Step)
    ensures
        step@ == finish(file_path@, terminal@),
{
    let mut events: Vec<PhotisoEvent> = Vec::new();
    let closing = PhotisoEvent::FileFinished { file: String::from_str(file_path) };
    events.push(terminal);
    events.push(closing);
    assert(events_view(events@) =~= seq![terminal@, closing@]);
    Step { state: FileState::Done, events, request: Request::Done }
}

fn failure_step(file_path: &str, error: PhotisoError) -> (step: Step)
    ensures
        step@ == failure(file_path@, error@),
{
    finish_step(file_path, PhotisoEvent::FileError { file: String::from_str(file_path), error })
}

fn opened_step(file_path: &str, step: Step) -> (out: Step)
    ensures
        out@ == opened(file_path@, step@),
{
    let Step { state, events: mut events, request } = step;
    let opening = PhotisoEvent::FileStarted { file: String::from_str(file_path) };
    let ghost before = events@;
    events.insert(0, opening);
    assert(events_view(events@) =~= seq![opening@] + events_view(before));
    Step { state, events, request }
}

fn quiet_step(state: FileState, request: Request) -> (step: Step)
    ensures
        step@ == (StepView { state: state@, events: Seq::empty(), request: request@ }),
{
    let events: Vec<PhotisoEvent> = Vec::new();
    assert(events_view(events@) =~= Seq::<EventView>::empty());
    Step { state, events, request }
}

fn probe_step(
    file_path: &str,
    scheme: Scheme,
    date_time: Timestamp,
    conflict: u32,
    config: &Config,
) -> (step: Step)
    ensures
        step@ == probe(file_path@, config@, scheme@, date_time, conflict),
{
    match candidate_path(file_path, &scheme, &date_time, conflict, config) {
        Err(error) => failure_step(file_path, error),
        Ok(path) => {
            if same_text(path.as_str(), file_path) {
                finish_step(file_path, PhotisoEvent::NoOp { file: String::from_str(file_path) })
            } else {
                quiet_step(
                    FileState::AwaitProbe { scheme, timestamp: date_time, conflict },
                    Request::Probe { path },
                )
            }
        },
    }
}

fn probe_next_step(
    file_path: &str,
    scheme: Scheme,
    date_time: Timestamp,
    conflict: u32,
    config: &Config,
) -> (step: Step)
    ensures
        step@ == probe_next(file_path@, config@, scheme@, date_time, conflict),
{
    if conflict == u32::MAX {
        failure_step(file_path, PhotisoError::ConflictLimit)
    } else {
        probe_step(file_path, scheme, date_time, conflict + 1, config)
    }
}

/// Starts the search for a place in the duplicates tree, for a file whose contents,
/// of the digest `hash`, are already in the organized tree: the step that tries the
/// candidate of index 0 there.
pub fn move_to_duplicates(
    file_path: &str,
    date_time: &Timestamp,
    hash: &str,
    config: &Config,
) -> (step: Step)
    ensures
        step@ == probe(
            file_path@,
            config@,
            SchemeView::Duplicates { digest: hash@ },
            *date_time,
            0,
        ),
{
    probe_step(
        file_path,
        Scheme::Duplicates { digest: String::from_str(hash) },
        *date_time,
        0,
        config,
    )
}

fn begin_step(file_path: &str, is_regular_file: bool) -> (step: Step)
    ensures
        step@ == begin(file_path@, is_regular_file),
{
    if !is_photo_file(file_path, is_regular_file) {
        opened_step(
            file_path,
            finish_step(
                file_path,
                PhotisoEvent::Skipped {
                    file: String::from_str(file_path),
                    reason: SkipReason::NotAPhoto,
                },
            ),
        )
    } else if is_exempt(file_path) {
        opened_step(
            file_path,
            finish_step(
                file_path,
                PhotisoEvent::Skipped {
                    file: String::from_str(file_path),
                    reason: SkipReason::ExemptionMarker,
                },
            ),
        )
    } else {
        let opening = PhotisoEvent::FileStarted { file: String::from_str(file_path) };
        let mut events: Vec<PhotisoEvent> = Vec::new();
        events.push(opening);
        assert(events_view(events@) =~= seq![opening@]);
        Step { state: FileState::AwaitTimestamp, events, request: Request::ResolveTimestamp }
    }
}

/// Decides what comes next in the visit of the file at `file_path`.
///
/// A visit starts in `FileState::Start` with `Reply::Begin`. The caller reports the
/// events of each step in order, carries out its request, and comes back with the
/// state of the step and the reply, until the request is `Request::Done`.
///
/// A move is asked for only in answer to the reply that nothing exists at its
/// target. A reply that reports a failure, or that does not answer the request of the
/// state, ends the visit with a `FileError`; the file stays where it is.
pub fn organize_file(file_path: &str, state: FileState, reply: Reply, config: &Config) -> (step:
    Step)
    ensures
        step@ == step_spec(file_path@, config@, state@, reply@),
        step@.request is Move ==> state@ is AwaitProbe && reply@ == ReplyView::Exists(false),
{
    match state {
        FileState::Start => match reply {
            Reply::Begin { is_regular_file } => begin_step(file_path, is_regular_file),
            _ => opened_step(file_path, failure_step(file_path, PhotisoError::UnexpectedReply)),
        },
        FileState::AwaitTimestamp => match reply {
            Reply::Timestamp(timestamp) => probe_step(
                file_path,
                Scheme::Organized,
                timestamp,
                0,
                config,
            ),
            Reply::Failed(message) => failure_step(file_path, PhotisoError::Metadata(message)),
            _ => failure_step(file_path, PhotisoError::UnexpectedReply),
        },
        FileState::AwaitProbe { scheme, timestamp, conflict } => match reply {
            Reply::Exists(exists) => match candidate_path(
                file_path,
                &scheme,
                &timestamp,
                conflict,
                config,
            ) {
                Err(error) => failure_step(file_path, error),
                Ok(path) => {
                    if !exists {
                        let duplicate = match scheme {
                            Scheme::Organized => false,
                            Scheme::Duplicates { .. } => true,
                        };
                        let to = path.clone();
                        quiet_step(
                            FileState::AwaitMove { to: path, duplicate },
                            Request::Move { to },
                        )
                    } else {
                        match scheme {
                            Scheme::Organized => quiet_step(
                                FileState::AwaitLengths { timestamp, conflict },
                                Request::MeasureLengths { path },
                            ),
                            Scheme::Duplicates { digest } => probe_next_step(
                                file_path,
                                Scheme::Duplicates { digest },
                                timestamp,
                                conflict,
                                config,
                            ),
                        }
                    }
                },
            },
            Reply::Failed(message) => failure_step(file_path, PhotisoError::Move(message)),
            _ => failure_step(file_path, PhotisoError::UnexpectedReply),
        },
        FileState::AwaitLengths { timestamp, conflict } => match reply {
            Reply::Lengths { source_length, other_length } => match candidate_path(
                file_path,
                &Scheme::Organized,
                &timestamp,
                conflict,
                config,
            ) {
                Err(error) => failure_step(file_path, error),
                Ok(path) => {
                    if source_length == other_length {
                        quiet_step(
                            FileState::AwaitDigests {
                                timestamp,
                                conflict,
                                source_length,
                                other_length,
                            },
                            Request::ComputeDigests { path },
                        )
                    } else {
                        probe_next_step(file_path, Scheme::Organized, timestamp, conflict, config)
                    }
                },
            },
            Reply::Failed(message) => failure_step(file_path, PhotisoError::Hash(message)),
            _ => failure_step(file_path, PhotisoError::UnexpectedReply),
        },
        FileState::AwaitDigests { timestamp, conflict, source_length, other_length } => match reply {
            Reply::Digests { source_digest, other_digest } => match are_same_file_contents(
                source_length,
                other_length,
                source_digest.as_str(),
                other_digest.as_str(),
            ) {
                Some(digest) => move_to_duplicates(file_path, &timestamp, digest.as_str(), config),
                None => probe_next_step(file_path, Scheme::Organized, timestamp, conflict, config),
            },
            Reply::Failed(message) => failure_step(file_path, PhotisoError::Hash(message)),
            _ => failure_step(file_path, PhotisoError::UnexpectedReply),
        },
        FileState::AwaitMove { to, duplicate } => match reply {
            Reply::Moved => {
                let from = String::from_str(file_path);
                if duplicate {
                    finish_step(file_path, PhotisoEvent::DuplicateMoved { from, to })
                } else {
                    finish_step(file_path, PhotisoEvent::Moved { from, to })
                }
            },
            Reply::Failed(message) => failure_step(file_path, PhotisoError::Move(message)),
            _ => failure_step(file_path, PhotisoError::UnexpectedReply),
        },
        FileState::Done => quiet_step(FileState::Done, Request::Done),
    }
}


/// A move is asked for only after the reply that nothing exists at its target, and
/// the target is the candidate that was probed.
pub proof fn lemma_move_only_to_free_place(
    source: Seq<char>,
    config: ConfigView,
    state: StateView,
    reply: ReplyView,
)
    requires
        step_spec(source, config, state, reply).request is Move,
    ensures
        reply == ReplyView::Exists(false),
        state is AwaitProbe,
        place(
            source,
            config,
            state->AwaitProbe_scheme,
            state->AwaitProbe_timestamp,
            state->AwaitProbe_conflict as nat,
        ) == Ok::<Seq<char>, ErrorView>(step_spec(source, config, state, reply).request->to),
{
}

} // verus!
