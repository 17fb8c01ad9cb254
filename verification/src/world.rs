//! The file system as the organizer sees it, and a visit played out on it.
//!
//! A `World` maps the path of each regular file to what the organizer can learn of it:
//! its length, its digest and its timestamp. `answer` and `after` are a file system
//! that replies truthfully and that nobody else writes to. `drive` runs the decisions of
//! `organize_file` against it to the end of a visit. `resolve` says in one recursion
//! where the search for a place ends; `lemma_drive_is_resolve` shows that the two
//! agree.

use vstd::prelude::*;
use crate::classifier::{exempt, photo_file, SkipReason};
use crate::config::ConfigView;
use crate::error::ErrorView;
use crate::event::EventView;
use crate::resolver::{
    begin,
    claim,
    place,
    probe,
    probe_next,
    same_contents,
    step_spec,
    ReplyView,
    RequestView,
    SchemeView,
    StateView,
    StepView,
};
use crate::timestamp::Timestamp;

verus! {

/// What the organizer can learn of one file. It stays with the file when the file is
/// moved.
pub struct FileImage {
    pub length: u64,
    pub digest: Seq<char>,
    pub timestamp: Timestamp,
}

/// The regular files of the three trees, by path.
pub type World = Map<Seq<char>, FileImage>;

/// The state of the world at the end of a visit, and the events of the visit.
#[verifier::ext_equal]
pub struct Visit {
    pub world: World,
    pub events: Seq<EventView>,
}

/// The truthful reply to `request` in `world`, for the file at `source`.
pub open spec fn answer(world: World, source: Seq<char>, request: RequestView) -> ReplyView {
    match request {
        RequestView::ResolveTimestamp => ReplyView::Timestamp(world[source].timestamp),
        RequestView::Probe { path } => ReplyView::Exists(world.dom().contains(path)),
        RequestView::MeasureLengths { path } => ReplyView::Lengths {
            source_length: world[source].length,
            other_length: world[path].length,
        },
        RequestView::ComputeDigests { path } => ReplyView::Digests {
            source_digest: world[source].digest,
            other_digest: world[path].digest,
        },
        RequestView::Move { to } => ReplyView::Moved,
        RequestView::Done => ReplyView::Moved,
    }
}

/// `world` after the file at `source` was renamed to `to`.
pub open spec fn moved(world: World, source: Seq<char>, to: Seq<char>) -> World {
    world.remove(source).insert(to, world[source])
}

/// `world` after `request` was carried out: a move renames the file, and nothing else
/// changes anything.
pub open spec fn after(world: World, source: Seq<char>, request: RequestView) -> World {
    match request {
        RequestView::Move { to } => moved(world, source, to),
        _ => world,
    }
}

/// The number of conflict indices.
pub open spec fn index_count() -> nat {
    0x1_0000_0000
}

/// A bound on the number of requests that can still follow `state`.
pub open spec fn rank(state: StateView) -> nat {
    match state {
        StateView::Done => 0,
        StateView::AwaitMove { .. } => 1,
        StateView::AwaitProbe { scheme: SchemeView::Duplicates { .. }, conflict, .. } => (1
            + index_count() - conflict) as nat,
        StateView::AwaitDigests { conflict, .. } => (3 + index_count() + 3 * (index_count()
            - conflict)) as nat,
        StateView::AwaitLengths { conflict, .. } => (4 + index_count() + 3 * (index_count()
            - conflict)) as nat,
        StateView::AwaitProbe { scheme: SchemeView::Organized, conflict, .. } => (5
            + index_count() + 3 * (index_count() - conflict)) as nat,
        StateView::AwaitTimestamp => 6 + 4 * index_count(),
        StateView::Start => 7 + 4 * index_count(),
    }
}

/// The visit that goes on from `step` in `world`: the events of the step, the request
/// carried out, the truthful reply handed to `organize_file`, and so on to the end.
///
/// The rank falls with every decision (`lemma_rank_decreases`): the test of it is
/// always met, and is there for the recursion to be seen to end.
pub open spec fn drive(
    world: World,
    source: Seq<char>,
    config: ConfigView,
    step: StepView,
) -> Visit
    decreases rank(step.state),
{
    if step.request is Done {
        Visit { world, events: step.events }
    } else {
        let next = step_spec(source, config, step.state, answer(world, source, step.request));
        if rank(next.state) < rank(step.state) {
            let rest = drive(after(world, source, step.request), source, config, next);
            Visit { world: rest.world, events: step.events + rest.events }
        } else {
            Visit { world, events: step.events }
        }
    }
}

/// The whole visit of the entry at `source`, a regular file exactly where the world
/// holds it.
pub open spec fn visit(world: World, source: Seq<char>, config: ConfigView) -> Visit {
    drive(
        world,
        source,
        config,
        step_spec(
            source,
            config,
            StateView::Start,
            ReplyView::Begin { is_regular_file: world.dom().contains(source) },
        ),
    )
}

/// The visit that ends with `terminal` and changes nothing.
pub open spec fn settled(world: World, source: Seq<char>, terminal: EventView) -> Visit {
    Visit { world, events: seq![terminal, EventView::FileFinished { file: source }] }
}

/// The visit that ends with the move of `source` to `to`.
pub open spec fn relocated(world: World, source: Seq<char>, to: Seq<char>, scheme: SchemeView)
    -> Visit {
    Visit {
        world: moved(world, source, to),
        events: seq![
            if scheme is Duplicates {
                EventView::DuplicateMoved { from: source, to }
            } else {
                EventView::Moved { from: source, to }
            },
            EventView::FileFinished { file: source },
        ],
    }
}

/// Whether the file at `path` counts as the same as the file at `source`.
pub open spec fn same_file(world: World, source: Seq<char>, path: Seq<char>) -> bool {
    same_contents(
        world[source].length,
        world[path].length,
        world[source].digest,
        world[path].digest,
    ) is Some
}

/// What a look at one candidate shows.
pub enum ConflictOutcome {
    /// The candidate is the path of the file itself: the file is in place.
    AlreadyCorrect,
    /// Nothing is at the candidate: the file can move there.
    Free,
    /// A file of the same length and digest is at the candidate, in the organized
    /// tree: the file is a duplicate.
    SameContent { digest: Seq<char> },
    /// Another file is at the candidate.
    Collision,
}

/// What a look at the candidate `path` shows for the file at `source`.
pub open spec fn conflict_outcome(
    world: World,
    source: Seq<char>,
    path: Seq<char>,
    scheme: SchemeView,
) -> ConflictOutcome {
    if path == source {
        ConflictOutcome::AlreadyCorrect
    } else if !world.dom().contains(path) {
        ConflictOutcome::Free
    } else if scheme is Organized && same_file(world, source, path) {
        ConflictOutcome::SameContent { digest: world[source].digest }
    } else {
        ConflictOutcome::Collision
    }
}

/// Where the search for a place ends, from the conflict index `conflict` on.
///
/// The first candidate that is the path of the file itself ends it with `NoOp`; the
/// first that is free takes the file; the first in the organized tree that holds the
/// same contents sends the search to the duplicates tree; any other occupant sends it
/// to the next index.
pub open spec fn resolve(
    world: World,
    source: Seq<char>,
    config: ConfigView,
    scheme: SchemeView,
    timestamp: Timestamp,
    conflict: nat,
) -> Visit
    decreases
            (if scheme is Organized {
                1nat
            } else {
                0nat
            }),
            index_count() - conflict,
{
    if conflict >= index_count() {
        settled(
            world,
            source,
            EventView::FileError { file: source, error: ErrorView::ConflictLimit },
        )
    } else {
        match place(source, config, scheme, timestamp, conflict) {
            Err(error) => settled(world, source, EventView::FileError { file: source, error }),
            Ok(path) => match conflict_outcome(world, source, path, scheme) {
                ConflictOutcome::AlreadyCorrect => settled(
                    world,
                    source,
                    EventView::NoOp { file: source },
                ),
                ConflictOutcome::Free => relocated(world, source, path, scheme),
                ConflictOutcome::SameContent { digest } => if scheme is Organized {
                    resolve(
                        world,
                        source,
                        config,
                        SchemeView::Duplicates { digest },
                        timestamp,
                        0,
                    )
                } else {
                    resolve(world, source, config, scheme, timestamp, conflict + 1)
                },
                ConflictOutcome::Collision => resolve(
                    world,
                    source,
                    config,
                    scheme,
                    timestamp,
                    conflict + 1,
                ),
            },
        }
    }
}

/// What a visit comes to: an entry that is no photo and a photo with the exemption
/// marker are skipped, and any other file goes where `resolve` finds its place.
pub open spec fn outcome(world: World, source: Seq<char>, config: ConfigView) -> Visit {
    let opening = seq![EventView::FileStarted { file: source }];
    if !photo_file(source, world.dom().contains(source)) {
        Visit {
            world,
            events: opening + settled(
                world,
                source,
                EventView::Skipped { file: source, reason: SkipReason::NotAPhoto },
            ).events,
        }
    } else if exempt(source) {
        Visit {
            world,
            events: opening + settled(
                world,
                source,
                EventView::Skipped { file: source, reason: SkipReason::ExemptionMarker },
            ).events,
        }
    } else {
        let found = resolve(
            world,
            source,
            config,
            SchemeView::Organized,
            world[source].timestamp,
            0,
        );
        Visit { world: found.world, events: opening + found.events }
    }
}

/// The world after the files of `files` were visited one after the other.
pub open spec fn run(world: World, files: Seq<Seq<char>>, config: ConfigView) -> World
    decreases files.len(),
{
    if files.len() == 0 {
        world
    } else {
        visit(run(world, files.drop_last(), config), files.last(), config).world
    }
}

/// Every decision from a state other than `Done` lowers the rank: a visit ends.
pub proof fn lemma_rank_decreases(
    source: Seq<char>,
    config: ConfigView,
    state: StateView,
    reply: ReplyView,
)
    requires
        !(state is Done),
    ensures
        rank(step_spec(source, config, state, reply).state) < rank(state),
{
}

/// A step that ends the visit is the whole rest of the visit.
proof fn lemma_drive_done(world: World, source: Seq<char>, config: ConfigView, step: StepView)
    requires
        step.request is Done,
    ensures
        drive(world, source, config, step) == (Visit { world, events: step.events }),
{
}

/// A step that asks for something is followed by the visit from the next step.
proof fn lemma_drive_next(world: World, source: Seq<char>, config: ConfigView, step: StepView)
    requires
        !(step.request is Done),
        !(step.state is Done),
    ensures
        ({
            let next = step_spec(source, config, step.state, answer(world, source, step.request));
            let rest = drive(after(world, source, step.request), source, config, next);
            drive(world, source, config, step) == (Visit {
                world: rest.world,
                events: step.events + rest.events,
            })
        }),
{
    lemma_rank_decreases(source, config, step.state, answer(world, source, step.request));
}

/// The visit from the claim of a free candidate is the move to it.
proof fn lemma_drive_claim(
    world: World,
    source: Seq<char>,
    config: ConfigView,
    path: Seq<char>,
    scheme: SchemeView,
)
    ensures
        drive(world, source, config, claim(source, path, scheme)) == relocated(
            world,
            source,
            path,
            scheme,
        ),
{
    let step = claim(source, path, scheme);
    lemma_drive_next(world, source, config, step);
    let next = step_spec(source, config, step.state, ReplyView::Moved);
    lemma_drive_done(moved(world, source, path), source, config, next);
    assert(step.events + next.events =~= next.events);
}

/// The visit from the probe of a conflict index ends where `resolve` says.
pub proof fn lemma_drive_is_resolve(
    world: World,
    source: Seq<char>,
    config: ConfigView,
    scheme: SchemeView,
    timestamp: Timestamp,
    conflict: u32,
)
    ensures
        drive(world, source, config, probe(source, config, scheme, timestamp, conflict))
            == resolve(world, source, config, scheme, timestamp, conflict as nat),
    decreases
            (if scheme is Organized {
                1nat
            } else {
                0nat
            }),
            index_count() - conflict,
            0nat,
{
    let first = probe(source, config, scheme, timestamp, conflict);
    match place(source, config, scheme, timestamp, conflict as nat) {
        Err(error) => {
            lemma_drive_done(world, source, config, first);
        },
        Ok(path) => {
            if path == source {
                lemma_drive_done(world, source, config, first);
            } else {
                lemma_drive_next(world, source, config, first);
                let exists = world.dom().contains(path);
                let second = step_spec(source, config, first.state, ReplyView::Exists(exists));
                if !exists {
                    lemma_drive_claim(world, source, config, path, scheme);
                    assert(first.events + relocated(world, source, path, scheme).events
                        =~= relocated(world, source, path, scheme).events);
                } else if scheme is Organized {
                    lemma_drive_next(world, source, config, second);
                    let third = step_spec(
                        source,
                        config,
                        second.state,
                        answer(world, source, second.request),
                    );
                    if world[source].length == world[path].length {
                        lemma_drive_next(world, source, config, third);
                        let fourth = step_spec(
                            source,
                            config,
                            third.state,
                            answer(world, source, third.request),
                        );
                        if same_file(world, source, path) {
                            lemma_drive_is_resolve(
                                world,
                                source,
                                config,
                                SchemeView::Duplicates { digest: world[source].digest },
                                timestamp,
                                0,
                            );
                        } else {
                            lemma_drive_after(world, source, config, scheme, timestamp, conflict);
                        }
                        let rest = drive(world, source, config, fourth);
                        assert(first.events + (second.events + (third.events + rest.events))
                            =~= rest.events);
                    } else {
                        lemma_drive_after(world, source, config, scheme, timestamp, conflict);
                        let rest = drive(world, source, config, third);
                        assert(first.events + (second.events + rest.events) =~= rest.events);
                    }
                } else {
                    lemma_drive_after(world, source, config, scheme, timestamp, conflict);
                    let rest = drive(world, source, config, second);
                    assert(first.events + rest.events =~= rest.events);
                }
            }
        },
    }
}

/// The visit from the step after a conflict index ends where `resolve` says for the
/// next index.
proof fn lemma_drive_after(
    world: World,
    source: Seq<char>,
    config: ConfigView,
    scheme: SchemeView,
    timestamp: Timestamp,
    conflict: u32,
)
    ensures
        drive(world, source, config, probe_next(source, config, scheme, timestamp, conflict))
            == resolve(world, source, config, scheme, timestamp, (conflict + 1) as nat),
    decreases
            (if scheme is Organized {
                1nat
            } else {
                0nat
            }),
            index_count() - conflict - 1,
            1nat,
{
    if conflict == u32::MAX {
        lemma_drive_done(
            world,
            source,
            config,
            probe_next(source, config, scheme, timestamp, conflict),
        );
    } else {
        lemma_drive_is_resolve(world, source, config, scheme, timestamp, (conflict + 1) as u32);
    }
}

/// A visit played out step by step comes to `outcome`.
pub proof fn lemma_visit_is_outcome(world: World, source: Seq<char>, config: ConfigView)
    ensures
        visit(world, source, config) == outcome(world, source, config),
{
    let is_regular_file = world.dom().contains(source);
    let first = begin(source, is_regular_file);
    if !photo_file(source, is_regular_file) || exempt(source) {
        lemma_drive_done(world, source, config, first);
        assert(visit(world, source, config) =~= outcome(world, source, config));
    } else {
        lemma_drive_next(world, source, config, first);
        let timestamp = world[source].timestamp;
        lemma_drive_is_resolve(world, source, config, SchemeView::Organized, timestamp, 0);
    }
}

} // verus!
