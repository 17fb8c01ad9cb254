//! What holds of every visit.
//!
//! The laws speak of `visit`: the decisions of `organize_file` played out on a file
//! system that replies truthfully and that nobody else writes to.

use vstd::prelude::*;
use crate::classifier::{exempt, is_photo_extension, lemma_photo_extension, photo_file};
use crate::config::ConfigView;
use crate::error::ErrorView;
use crate::event::EventView;
use crate::naming::{
    duplicates_path,
    lemma_destination_extension,
    month_directory,
    organized_path,
    stamp_text,
};
use crate::path::extension_of;
use crate::resolver::{place, SchemeView};
use crate::text::{lower, lowered};
use crate::timestamp::Timestamp;
use crate::world::{
    index_count,
    lemma_visit_is_outcome,
    moved,
    relocated,
    resolve,
    run,
    same_file,
    settled,
    visit,
    Visit,
    World,
};

verus! {

/// What the search for a place can come to: the file stays and is in place, or stays
/// with an error, or goes to a candidate of its own where nothing was.
pub open spec fn is_resolution(
    world: World,
    source: Seq<char>,
    config: ConfigView,
    timestamp: Timestamp,
    found: Visit,
) -> bool {
    &&& found.events.len() == 2
    &&& found.events[1] == EventView::FileFinished { file: source }
    &&& match found.events[0] {
        EventView::NoOp { file } => file == source && found.world == world,
        EventView::FileError { file, error } => file == source && found.world == world,
        EventView::Moved { from, to } => {
            &&& from == source
            &&& to != source
            &&& !world.dom().contains(to)
            &&& found.world == moved(world, source, to)
            &&& exists|conflict: nat|
                place(source, config, SchemeView::Organized, timestamp, conflict) == Ok::<
                    Seq<char>,
                    ErrorView,
                >(to)
        },
        EventView::DuplicateMoved { from, to } => {
            &&& from == source
            &&& to != source
            &&& !world.dom().contains(to)
            &&& found.world == moved(world, source, to)
            &&& exists|conflict: nat|
                place(
                    source,
                    config,
                    SchemeView::Duplicates { digest: world[source].digest },
                    timestamp,
                    conflict,
                ) == Ok::<Seq<char>, ErrorView>(to)
        },
        _ => false,
    }
}

/// The search in the duplicates tree never ends in the organized tree.
pub proof fn lemma_resolve_duplicates(
    world: World,
    source: Seq<char>,
    config: ConfigView,
    timestamp: Timestamp,
    conflict: nat,
)
    ensures
        is_resolution(
            world,
            source,
            config,
            timestamp,
            resolve(
                world,
                source,
                config,
                SchemeView::Duplicates { digest: world[source].digest },
                timestamp,
                conflict,
            ),
        ),
        !(resolve(
            world,
            source,
            config,
            SchemeView::Duplicates { digest: world[source].digest },
            timestamp,
            conflict,
        ).events[0] is Moved),
    decreases index_count() - conflict,
{
    let scheme = SchemeView::Duplicates { digest: world[source].digest };
    if conflict < index_count() {
        match place(source, config, scheme, timestamp, conflict) {
            Err(error) => {},
            Ok(path) => {
                if path != source && world.dom().contains(path) {
                    lemma_resolve_duplicates(world, source, config, timestamp, conflict + 1);
                }
            },
        }
    }
}

/// The search for a place ends in one of the ways of `is_resolution`.
pub proof fn lemma_resolve_organized(
    world: World,
    source: Seq<char>,
    config: ConfigView,
    timestamp: Timestamp,
    conflict: nat,
)
    ensures
        is_resolution(
            world,
            source,
            config,
            timestamp,
            resolve(world, source, config, SchemeView::Organized, timestamp, conflict),
        ),
    decreases index_count() - conflict,
{
    let scheme = SchemeView::Organized;
    if conflict < index_count() {
        match place(source, config, scheme, timestamp, conflict) {
            Err(error) => {},
            Ok(path) => {
                if path != source && world.dom().contains(path) {
                    if same_file(world, source, path) {
                        lemma_resolve_duplicates(world, source, config, timestamp, 0);
                    } else {
                        lemma_resolve_organized(world, source, config, timestamp, conflict + 1);
                    }
                }
            },
        }
    }
}

/// The events of a visit: `FileStarted`, one terminal event, and `FileFinished`, all
/// three for the file that was visited.
pub proof fn lemma_visit_is_bracketed(world: World, source: Seq<char>, config: ConfigView)
    ensures
        visit(world, source, config).events.len() == 3,
        visit(world, source, config).events[0] == (EventView::FileStarted { file: source }),
        visit(world, source, config).events[1].is_terminal(),
        visit(world, source, config).events[2] == (EventView::FileFinished { file: source }),
{
    lemma_visit_is_outcome(world, source, config);
    if photo_file(source, world.dom().contains(source)) && !exempt(source) {
        lemma_resolve_organized(world, source, config, world[source].timestamp, 0);
    }
}

/// No file is overwritten and none is lost. A visit leaves the world as it is, or
/// moves the visited file, and only that file, to a path where nothing was; every
/// other file stays where it is, as it is.
pub proof fn lemma_no_clobber(world: World, source: Seq<char>, config: ConfigView)
    ensures
        ({
            let seen = visit(world, source, config);
            &&& match seen.events[1] {
                EventView::Moved { from, to } => from == source && !world.dom().contains(to)
                    && seen.world == moved(world, source, to),
                EventView::DuplicateMoved { from, to } => from == source
                    && !world.dom().contains(to) && seen.world == moved(world, source, to),
                _ => seen.world == world,
            }
            &&& forall|other: Seq<char>|
                other != source && world.dom().contains(other) ==> #[trigger] seen.world.dom().contains(
                    other,
                ) && seen.world[other] == world[other]
        }),
{
    lemma_visit_is_outcome(world, source, config);
    if photo_file(source, world.dom().contains(source)) && !exempt(source) {
        lemma_resolve_organized(world, source, config, world[source].timestamp, 0);
    }
}

/// A file with the exemption marker in its stem is never moved: its visit is a
/// `Skipped` between the brackets, and the world stays as it is.
pub proof fn lemma_exempt_is_skipped(world: World, source: Seq<char>, config: ConfigView)
    requires
        exempt(source),
    ensures
        visit(world, source, config).world == world,
        visit(world, source, config).events.len() == 3,
        visit(world, source, config).events[1] is Skipped,
{
    lemma_visit_is_outcome(world, source, config);
}

/// Whether two paths have the same extension once it is in small letters.
pub open spec fn same_kind(first: Seq<char>, second: Seq<char>) -> bool {
    extension_of(first) is Some && extension_of(second) is Some && lowered(
        extension_of(first)->0,
    ) == lowered(extension_of(second)->0)
}

/// Two files of the same kind have the same candidates.
pub proof fn lemma_same_kind_same_places(
    first: Seq<char>,
    second: Seq<char>,
    config: ConfigView,
    scheme: SchemeView,
    timestamp: Timestamp,
    conflict: nat,
)
    requires
        same_kind(first, second),
    ensures
        place(first, config, scheme, timestamp, conflict) == place(
            second,
            config,
            scheme,
            timestamp,
            conflict,
        ),
{
}

/// A candidate of a photo is of the kind of the photo, where it has an extension at
/// all.
pub proof fn lemma_place_keeps_kind(
    source: Seq<char>,
    config: ConfigView,
    scheme: SchemeView,
    timestamp: Timestamp,
    conflict: nat,
)
    requires
        place(source, config, scheme, timestamp, conflict) is Ok,
        is_photo_extension(lower(extension_of(source)->0)),
    ensures
        ({
            let to = place(source, config, scheme, timestamp, conflict)->Ok_0;
            extension_of(to) is Some ==> same_kind(source, to)
        }),
{
    let extension = extension_of(source)->0;
    lemma_photo_extension(extension);
    match scheme {
        SchemeView::Organized => {
            lemma_destination_extension(
                config.organized,
                stamp_text(timestamp),
                ' ',
                lower(extension),
                timestamp,
                conflict,
            );
        },
        SchemeView::Duplicates { digest } => {
            lemma_destination_extension(
                config.duplicates,
                digest,
                '.',
                lower(extension),
                timestamp,
                conflict,
            );
        },
    }
}

/// The search that moved a file to `to` finds the file in place when it starts again
/// from `to`.
proof fn lemma_search_again(
    world: World,
    source: Seq<char>,
    config: ConfigView,
    scheme: SchemeView,
    timestamp: Timestamp,
    conflict: nat,
    to: Seq<char>,
)
    requires
        same_kind(source, to),
        ({
            let first = resolve(world, source, config, scheme, timestamp, conflict);
            first.events[0] == (EventView::Moved { from: source, to }) || first.events[0] == (
            EventView::DuplicateMoved { from: source, to })
        }),
    ensures
        resolve(moved(world, source, to), to, config, scheme, timestamp, conflict) == settled(
            moved(world, source, to),
            to,
            EventView::NoOp { file: to },
        ),
    decreases
            (if scheme is Organized {
                1nat
            } else {
                0nat
            }),
            index_count() - conflict,
{
    let after = moved(world, source, to);
    lemma_same_kind_same_places(source, to, config, scheme, timestamp, conflict);
    if conflict < index_count() {
        match place(source, config, scheme, timestamp, conflict) {
            Err(error) => {},
            Ok(path) => {
                if path != source && world.dom().contains(path) {
                    if scheme is Organized && same_file(world, source, path) {
                        lemma_search_again(
                            world,
                            source,
                            config,
                            SchemeView::Duplicates { digest: world[source].digest },
                            timestamp,
                            0,
                            to,
                        );
                    } else {
                        lemma_search_again(
                            world,
                            source,
                            config,
                            scheme,
                            timestamp,
                            conflict + 1,
                            to,
                        );
                    }
                    if path != to {
                        assert(after.dom().contains(path));
                        assert(after[path] == world[path]);
                        assert(after[to] == world[source]);
                    }
                }
            },
        }
    }
}

/// Where the file rests after a visit that ended with `terminal`.
pub open spec fn resting_place(source: Seq<char>, terminal: EventView) -> Seq<char> {
    match terminal {
        EventView::Moved { from, to } => to,
        EventView::DuplicateMoved { from, to } => to,
        _ => source,
    }
}

/// A second visit changes nothing. After a file was visited, a visit of the file
/// where it now rests leaves the world as it is, and ends with `NoOp` or `Skipped`;
/// where the first visit ended with an error, the second ends with the same error.
pub proof fn lemma_second_visit_changes_nothing(
    world: World,
    source: Seq<char>,
    config: ConfigView,
)
    ensures
        ({
            let first = visit(world, source, config);
            let second = visit(first.world, resting_place(source, first.events[1]), config);
            &&& second.world == first.world
            &&& if first.events[1] is FileError {
                second.events[1] == first.events[1]
            } else {
                second.events[1] is NoOp || second.events[1] is Skipped
            }
        }),
{
    lemma_visit_is_outcome(world, source, config);
    let first = visit(world, source, config);
    let rest = resting_place(source, first.events[1]);
    lemma_visit_is_outcome(first.world, rest, config);
    if photo_file(source, world.dom().contains(source)) && !exempt(source) {
        let timestamp = world[source].timestamp;
        lemma_resolve_organized(world, source, config, timestamp, 0);
        if first.events[1] is Moved || first.events[1] is DuplicateMoved {
            let scheme = if first.events[1] is Moved {
                SchemeView::Organized
            } else {
                SchemeView::Duplicates { digest: world[source].digest }
            };
            let conflict = choose|conflict: nat|
                place(source, config, scheme, timestamp, conflict) == Ok::<Seq<char>, ErrorView>(
                    rest,
                );
            lemma_place_keeps_kind(source, config, scheme, timestamp, conflict);
            assert(first.world.dom().contains(rest));
            assert(first.world[rest] == world[source]);
            if photo_file(rest, true) && !exempt(rest) {
                lemma_search_again(
                    world,
                    source,
                    config,
                    SchemeView::Organized,
                    timestamp,
                    0,
                    rest,
                );
            }
        }
    }
}

/// Whether `path` is a place in the duplicates tree of a file of the kind of `source`
/// with the given timestamp and digest.
pub open spec fn is_duplicates_place(
    path: Seq<char>,
    source: Seq<char>,
    config: ConfigView,
    timestamp: Timestamp,
    digest: Seq<char>,
) -> bool {
    exists|conflict: nat|
        place(source, config, SchemeView::Duplicates { digest }, timestamp, conflict) == Ok::<
            Seq<char>,
            ErrorView,
        >(path)
}

/// Whether `seen`, what a search for a place came to, left the file in the duplicates
/// tree under the name its digest gives it: it was moved there, or it was there
/// already.
spec fn rests_among_duplicates(
    seen: Visit,
    source: Seq<char>,
    config: ConfigView,
    timestamp: Timestamp,
    digest: Seq<char>,
) -> bool {
    match seen.events[0] {
        EventView::DuplicateMoved { from, to } => from == source && is_duplicates_place(
            to,
            source,
            config,
            timestamp,
            digest,
        ),
        EventView::NoOp { file } => is_duplicates_place(source, source, config, timestamp, digest),
        _ => false,
    }
}

/// The search in the duplicates tree leaves the file in that tree, unless every index
/// there is taken.
proof fn lemma_duplicates_search(
    world: World,
    source: Seq<char>,
    config: ConfigView,
    timestamp: Timestamp,
    digest: Seq<char>,
    conflict: nat,
)
    requires
        extension_of(source) is Some,
        timestamp.is_valid(),
    ensures
        ({
            let found = resolve(
                world,
                source,
                config,
                SchemeView::Duplicates { digest },
                timestamp,
                conflict,
            );
            rests_among_duplicates(found, source, config, timestamp, digest) || found.events[0]
                == (EventView::FileError { file: source, error: ErrorView::ConflictLimit })
        }),
    decreases index_count() - conflict,
{
    let scheme = SchemeView::Duplicates { digest };
    if conflict < index_count() {
        let path = place(source, config, scheme, timestamp, conflict)->Ok_0;
        if path != source && world.dom().contains(path) {
            lemma_duplicates_search(world, source, config, timestamp, digest, conflict + 1);
        }
    }
}

/// After a file went to the organized tree, the search for a file with the same
/// contents, timestamp and kind ends up in the duplicates tree.
proof fn lemma_twin_search(
    world: World,
    first: Seq<char>,
    second: Seq<char>,
    config: ConfigView,
    timestamp: Timestamp,
    conflict: nat,
    to: Seq<char>,
)
    requires
        first != second,
        world.dom().contains(first),
        world.dom().contains(second),
        world[first].length == world[second].length,
        world[first].digest == world[second].digest,
        same_kind(first, second),
        resolve(world, first, config, SchemeView::Organized, timestamp, conflict).events[0] == (
        EventView::Moved { from: first, to }),
    ensures
        resolve(
            moved(world, first, to),
            second,
            config,
            SchemeView::Organized,
            timestamp,
            conflict,
        ) == resolve(
            moved(world, first, to),
            second,
            config,
            SchemeView::Duplicates { digest: world[second].digest },
            timestamp,
            0,
        ),
    decreases index_count() - conflict,
{
    let after = moved(world, first, to);
    let scheme = SchemeView::Organized;
    lemma_same_kind_same_places(first, second, config, scheme, timestamp, conflict);
    lemma_resolve_organized(world, first, config, timestamp, conflict);
    assert(!world.dom().contains(to));
    assert(after[second] == world[second]);
    if conflict < index_count() {
        match place(first, config, scheme, timestamp, conflict) {
            Err(error) => {},
            Ok(path) => {
                if path != first && world.dom().contains(path) {
                    if same_file(world, first, path) {
                        lemma_resolve_duplicates(world, first, config, timestamp, 0);
                    } else {
                        lemma_twin_search(
                            world,
                            first,
                            second,
                            config,
                            timestamp,
                            conflict + 1,
                            to,
                        );
                        assert(path != second);
                        assert(after.dom().contains(path));
                        assert(after[path] == world[path]);
                    }
                } else if path != first {
                    assert(path == to);
                    assert(after[path] == world[first]);
                }
            },
        }
    }
}

/// Of two files with the same contents, timestamp and kind, one goes to the organized
/// tree and the other to the duplicates tree. After the visit of `first` ended with
/// its move to the organized tree, the visit of `second` leaves `second` in the
/// duplicates tree under the name their digest gives it, unless every index there is
/// taken.
pub proof fn lemma_twin_goes_to_duplicates(
    world: World,
    first: Seq<char>,
    second: Seq<char>,
    config: ConfigView,
)
    requires
        first != second,
        world.dom().contains(first),
        world.dom().contains(second),
        world[first] == world[second],
        same_kind(first, second),
        photo_file(second, true),
        !exempt(second),
        visit(world, first, config).events[1] is Moved,
    ensures
        ({
            let between = visit(world, first, config).world;
            let seen = visit(between, second, config);
            let terminal = seen.events[1];
            ||| terminal == (EventView::FileError { file: second, error: ErrorView::ConflictLimit })
            ||| terminal is NoOp && is_duplicates_place(
                second,
                second,
                config,
                world[second].timestamp,
                world[second].digest,
            )
            ||| terminal is DuplicateMoved && terminal->DuplicateMoved_from == second
                && is_duplicates_place(
                terminal->DuplicateMoved_to,
                second,
                config,
                world[second].timestamp,
                world[second].digest,
            )
        }),
{
    let timestamp = world[first].timestamp;
    lemma_visit_is_outcome(world, first, config);
    lemma_resolve_organized(world, first, config, timestamp, 0);
    let to = visit(world, first, config).events[1]->Moved_to;
    let between = moved(world, first, to);
    lemma_visit_is_outcome(between, second, config);
    lemma_twin_search(world, first, second, config, timestamp, 0, to);
    lemma_duplicates_search(between, second, config, timestamp, world[second].digest, 0);
    lemma_resolve_duplicates(between, second, config, timestamp, 0);
}

/// Whether `path` is a candidate of some file: a place in the organized or in the
/// duplicates tree.
pub open spec fn is_place(path: Seq<char>, config: ConfigView) -> bool {
    exists|source: Seq<char>, scheme: SchemeView, timestamp: Timestamp, conflict: nat|
        #[trigger] place(source, config, scheme, timestamp, conflict) == Ok::<
            Seq<char>,
            ErrorView,
        >(path)
}

/// Whether `path` lies outside the organized and the duplicates tree: it starts with
/// neither root.
pub open spec fn is_outside(path: Seq<char>, config: ConfigView) -> bool {
    !config.organized.is_prefix_of(path) && !config.duplicates.is_prefix_of(path)
}

/// A path outside the two trees is no candidate of any file.
pub proof fn lemma_outside_is_no_place(path: Seq<char>, config: ConfigView)
    requires
        is_outside(path, config),
    ensures
        !is_place(path, config),
{
    assert forall|source: Seq<char>, scheme: SchemeView, timestamp: Timestamp, conflict: nat|
        #[trigger] place(source, config, scheme, timestamp, conflict) != Ok::<
            Seq<char>,
            ErrorView,
        >(path) by {
        let found = place(source, config, scheme, timestamp, conflict);
        if found is Ok {
            let to = found->Ok_0;
            let root = if scheme is Organized {
                config.organized
            } else {
                config.duplicates
            };
            assert(root.is_prefix_of(month_directory(root, timestamp)));
            assert(root.is_prefix_of(to));
        }
    }
}

/// Whether the file at `path` is settled: a visit ends with `NoOp` or `Skipped` and
/// leaves the world as it is.
pub open spec fn is_settled(world: World, path: Seq<char>, config: ConfigView) -> bool {
    let seen = visit(world, path, config);
    seen.world == world && (seen.events[1] is NoOp || seen.events[1] is Skipped)
}

/// The search of a file that is in place is not disturbed by the move of another
/// file that is no candidate of any file.
proof fn lemma_search_is_stable(
    world: World,
    moving: Seq<char>,
    to: Seq<char>,
    resting: Seq<char>,
    config: ConfigView,
    scheme: SchemeView,
    timestamp: Timestamp,
    conflict: nat,
)
    requires
        resting != moving,
        world.dom().contains(resting),
        !world.dom().contains(to),
        !is_place(moving, config),
        resolve(world, resting, config, scheme, timestamp, conflict).events[0] is NoOp,
    ensures
        resolve(moved(world, moving, to), resting, config, scheme, timestamp, conflict) == (
        Visit {
            world: moved(world, moving, to),
            events: resolve(world, resting, config, scheme, timestamp, conflict).events,
        }),
    decreases
            (if scheme is Organized {
                1nat
            } else {
                0nat
            }),
            index_count() - conflict,
{
    let after = moved(world, moving, to);
    assert(after.dom().contains(resting));
    assert(after[resting] == world[resting]);
    if conflict < index_count() {
        match place(resting, config, scheme, timestamp, conflict) {
            Err(error) => {},
            Ok(path) => {
                if path != resting && world.dom().contains(path) {
                    assert(path != moving);
                    assert(after.dom().contains(path));
                    assert(after[path] == world[path]);
                    if scheme is Organized && same_file(world, resting, path) {
                        lemma_search_is_stable(
                            world,
                            moving,
                            to,
                            resting,
                            config,
                            SchemeView::Duplicates { digest: world[resting].digest },
                            timestamp,
                            0,
                        );
                    } else {
                        lemma_search_is_stable(
                            world,
                            moving,
                            to,
                            resting,
                            config,
                            scheme,
                            timestamp,
                            conflict + 1,
                        );
                    }
                }
            },
        }
    }
}

/// What a visit does to the world: nothing, or the move of the visited file to a
/// candidate of its own where nothing was.
pub proof fn lemma_visit_effect(world: World, source: Seq<char>, config: ConfigView)
    ensures
        ({
            let seen = visit(world, source, config);
            let to = resting_place(source, seen.events[1]);
            if seen.events[1] is Moved || seen.events[1] is DuplicateMoved {
                &&& world.dom().contains(source)
                &&& to != source
                &&& !world.dom().contains(to)
                &&& is_place(to, config)
                &&& seen.world == moved(world, source, to)
            } else {
                seen.world == world
            }
        }),
{
    lemma_visit_is_outcome(world, source, config);
    if photo_file(source, world.dom().contains(source)) && !exempt(source) {
        lemma_resolve_organized(world, source, config, world[source].timestamp, 0);
    }
}

/// A settled file stays settled when another file moves to where nothing was, as
/// long as the file that moves is no candidate of any file.
proof fn lemma_settled_after_move(
    world: World,
    moving: Seq<char>,
    to: Seq<char>,
    resting: Seq<char>,
    config: ConfigView,
)
    requires
        resting != moving,
        resting != to,
        !world.dom().contains(to),
        !is_place(moving, config),
        is_settled(world, resting, config),
    ensures
        is_settled(moved(world, moving, to), resting, config),
        visit(moved(world, moving, to), resting, config).events[1] == visit(
            world,
            resting,
            config,
        ).events[1],
{
    let after = moved(world, moving, to);
    lemma_visit_is_outcome(world, resting, config);
    lemma_visit_is_outcome(after, resting, config);
    assert(after.dom().contains(resting) == world.dom().contains(resting));
    if photo_file(resting, world.dom().contains(resting)) && !exempt(resting) {
        assert(after[resting] == world[resting]);
        lemma_resolve_organized(world, resting, config, world[resting].timestamp, 0);
        lemma_search_is_stable(
            world,
            moving,
            to,
            resting,
            config,
            SchemeView::Organized,
            world[resting].timestamp,
            0,
        );
    }
}

/// Whether the file at `path` rests there: it is settled, and it exists or is no
/// candidate of any file.
pub open spec fn rests(world: World, path: Seq<char>, config: ConfigView) -> bool {
    is_settled(world, path, config) && (world.dom().contains(path) || !is_place(path, config))
}

/// A file that rests goes on resting when another file is visited, as long as the
/// other file is no candidate of any file.
pub proof fn lemma_rest_is_stable(
    world: World,
    visited: Seq<char>,
    resting: Seq<char>,
    config: ConfigView,
)
    requires
        !is_place(visited, config),
        rests(world, resting, config),
    ensures
        rests(visit(world, visited, config).world, resting, config),
        visit(visit(world, visited, config).world, resting, config).events[1] == visit(
            world,
            resting,
            config,
        ).events[1],
{
    let seen = visit(world, visited, config);
    lemma_visit_effect(world, visited, config);
    if seen.events[1] is Moved || seen.events[1] is DuplicateMoved {
        let to = resting_place(visited, seen.events[1]);
        lemma_settled_after_move(world, visited, to, resting, config);
    }
}

/// After a visit that did not end with an error, the file is settled where it rests.
pub proof fn lemma_settled_after_visit(world: World, source: Seq<char>, config: ConfigView)
    requires
        !(visit(world, source, config).events[1] is FileError),
    ensures
        is_settled(
            visit(world, source, config).world,
            resting_place(source, visit(world, source, config).events[1]),
            config,
        ),
{
    lemma_second_visit_changes_nothing(world, source, config);
}

/// After the visit of a file that is no candidate of any file, the file rests where
/// the visit left it, unless the visit ended with an error.
proof fn lemma_rests_after_visit(world: World, source: Seq<char>, config: ConfigView)
    requires
        !is_place(source, config),
        !(visit(world, source, config).events[1] is FileError),
    ensures
        rests(
            visit(world, source, config).world,
            resting_place(source, visit(world, source, config).events[1]),
            config,
        ),
{
    lemma_settled_after_visit(world, source, config);
    lemma_visit_effect(world, source, config);
}

/// Where the file `files[index]` rests after its visit in a run over `files`.
pub open spec fn rest_of(
    world: World,
    files: Seq<Seq<char>>,
    config: ConfigView,
    index: int,
) -> Seq<char> {
    resting_place(
        files[index],
        visit(run(world, files.take(index), config), files[index], config).events[1],
    )
}

/// A second run changes nothing. After the files of `files`, none of them a candidate
/// of any file, were visited one after the other, each of them whose visit did not end
/// with an error is settled where it rests: a visit there ends with `NoOp` or
/// `Skipped` and leaves the world as it is.
pub proof fn lemma_second_run_changes_nothing(
    world: World,
    files: Seq<Seq<char>>,
    config: ConfigView,
    index: int,
)
    requires
        0 <= index < files.len(),
        forall|i: int| 0 <= i < files.len() ==> !is_place(#[trigger] files[i], config),
    ensures
        visit(run(world, files.take(index), config), files[index], config).events[1]
            is FileError || rests(
            run(world, files, config),
            rest_of(world, files, config, index),
            config,
        ),
    decreases files.len(),
{
    let before = run(world, files.take(index), config);
    let first = visit(before, files[index], config);
    if !(first.events[1] is FileError) {
        assert(!is_place(files[index], config));
        if index == files.len() - 1 {
            assert(files.take(index) =~= files.drop_last());
            lemma_rests_after_visit(before, files[index], config);
        } else {
            let shorter = files.drop_last();
            assert(shorter.take(index) =~= files.take(index));
            assert(shorter[index] == files[index]);
            assert forall|i: int| 0 <= i < shorter.len() implies !is_place(
                #[trigger] shorter[i],
                config,
            ) by {
                assert(shorter[i] == files[i]);
            }
            lemma_second_run_changes_nothing(world, shorter, config, index);
            assert(!is_place(files[files.len() - 1], config));
            lemma_rest_is_stable(
                run(world, shorter, config),
                files.last(),
                rest_of(world, files, config, index),
                config,
            );
        }
    }
}

/// Where the files of a run over `files` rest, in the order of the run.
pub open spec fn rests_of(world: World, files: Seq<Seq<char>>, config: ConfigView) -> Seq<
    Seq<char>,
> {
    Seq::new(files.len(), |index: int| rest_of(world, files, config, index))
}

/// Whether a run over `files` reports no error.
pub open spec fn runs_clean(world: World, files: Seq<Seq<char>>, config: ConfigView) -> bool {
    forall|index: int|
        0 <= index < files.len() ==> !(#[trigger] visit(
            run(world, files.take(index), config),
            files[index],
            config,
        ).events[1] is FileError)
}

/// Running twice is running once. After a run without errors over files none of which
/// is a candidate of any file, a run over the places where those files rest leaves the
/// world as the first run left it. Files outside the organized and the duplicates
/// tree are no candidates: see `lemma_outside_is_no_place`.
pub proof fn lemma_run_is_idempotent(world: World, files: Seq<Seq<char>>, config: ConfigView)
    requires
        forall|i: int| 0 <= i < files.len() ==> !is_place(#[trigger] files[i], config),
        runs_clean(world, files, config),
    ensures
        run(run(world, files, config), rests_of(world, files, config), config) == run(
            world,
            files,
            config,
        ),
{
    lemma_rerun_prefix(world, files, config, files.len());
    assert(rests_of(world, files, config).take(files.len() as int) =~= rests_of(
        world,
        files,
        config,
    ));
}

proof fn lemma_rerun_prefix(world: World, files: Seq<Seq<char>>, config: ConfigView, count: nat)
    requires
        count <= files.len(),
        forall|i: int| 0 <= i < files.len() ==> !is_place(#[trigger] files[i], config),
        runs_clean(world, files, config),
    ensures
        run(
            run(world, files, config),
            rests_of(world, files, config).take(count as int),
            config,
        ) == run(world, files, config),
    decreases count,
{
    let after = run(world, files, config);
    let again = rests_of(world, files, config).take(count as int);
    if count > 0 {
        lemma_rerun_prefix(world, files, config, (count - 1) as nat);
        assert(again.drop_last() =~= rests_of(world, files, config).take(count - 1));
        assert(again.last() == rest_of(world, files, config, count - 1));
        lemma_second_run_changes_nothing(world, files, config, count - 1);
        assert(!(visit(
            run(world, files.take(count - 1), config),
            files[count - 1],
            config,
        ).events[1] is FileError));
    }
}

/// Where the file that was at `path` before a run over `files` is after it.
pub open spec fn whereabouts(
    world: World,
    files: Seq<Seq<char>>,
    config: ConfigView,
    path: Seq<char>,
) -> Seq<char>
    decreases files.len(),
{
    if files.len() == 0 {
        path
    } else {
        let before = whereabouts(world, files.drop_last(), config, path);
        if before == files.last() {
            resting_place(
                files.last(),
                visit(run(world, files.drop_last(), config), files.last(), config).events[1],
            )
        } else {
            before
        }
    }
}

/// A run only renames. Every file of the world is still there after a run, as it
/// was, at the path `whereabouts` gives; and no two files end at the same path.
pub proof fn lemma_run_only_renames(
    world: World,
    files: Seq<Seq<char>>,
    config: ConfigView,
    path: Seq<char>,
    other: Seq<char>,
)
    requires
        world.dom().contains(path),
        world.dom().contains(other),
        path != other,
    ensures
        run(world, files, config).dom().contains(whereabouts(world, files, config, path)),
        run(world, files, config)[whereabouts(world, files, config, path)] == world[path],
        whereabouts(world, files, config, path) != whereabouts(world, files, config, other),
    decreases files.len(),
{
    if files.len() > 0 {
        let shorter = files.drop_last();
        lemma_run_only_renames(world, shorter, config, path, other);
        lemma_run_only_renames(world, shorter, config, other, path);
        let earlier = run(world, shorter, config);
        lemma_visit_effect(earlier, files.last(), config);
    }
}

/// Of two files with the same contents, timestamp and kind, the first goes to the
/// organized tree and the second to the duplicates tree under their digest. Where
/// nothing is at the place of index 0 in either tree, and the two places are not the
/// same path, the visit of the first photo moves it to
/// `{organized}/{YYYY}/{MM}/{YYYY-MM-DD HH-MM-SS-fffffffff}.{ext}`, and the visit of
/// the second after it moves that one to `{duplicates}/{YYYY}/{MM}/{digest}.{ext}`.
pub proof fn lemma_twins_at_index_zero(
    world: World,
    first: Seq<char>,
    second: Seq<char>,
    config: ConfigView,
)
    requires
        first != second,
        world.dom().contains(first),
        world.dom().contains(second),
        world[first] == world[second],
        world[first].timestamp.is_valid(),
        photo_file(first, true),
        photo_file(second, true),
        !exempt(first),
        !exempt(second),
        same_kind(first, second),
        !world.dom().contains(
            organized_path(
                config.organized,
                extension_of(first)->0,
                world[first].timestamp,
                0,
            ),
        ),
        !world.dom().contains(
            duplicates_path(
                config.duplicates,
                extension_of(first)->0,
                world[first].timestamp,
                world[first].digest,
                0,
            ),
        ),
        organized_path(config.organized, extension_of(first)->0, world[first].timestamp, 0)
            != duplicates_path(
            config.duplicates,
            extension_of(first)->0,
            world[first].timestamp,
            world[first].digest,
            0,
        ),
    ensures
        ({
            let organized = organized_path(
                config.organized,
                extension_of(first)->0,
                world[first].timestamp,
                0,
            );
            let duplicate = duplicates_path(
                config.duplicates,
                extension_of(first)->0,
                world[first].timestamp,
                world[first].digest,
                0,
            );
            let between = visit(world, first, config);
            let end = visit(between.world, second, config);
            &&& between.events[1] == (EventView::Moved { from: first, to: organized })
            &&& end.events[1] == (EventView::DuplicateMoved { from: second, to: duplicate })
            &&& end.world == moved(moved(world, first, organized), second, duplicate)
        }),
{
    let timestamp = world[first].timestamp;
    let organized = organized_path(config.organized, extension_of(first)->0, timestamp, 0);
    let between = moved(world, first, organized);
    lemma_visit_is_outcome(world, first, config);
    lemma_visit_is_outcome(between, second, config);
    lemma_same_kind_same_places(first, second, config, SchemeView::Organized, timestamp, 0);
    lemma_same_kind_same_places(
        first,
        second,
        config,
        SchemeView::Duplicates { digest: world[first].digest },
        timestamp,
        0,
    );
    assert(between[second] == world[second]);
    assert(between[organized] == world[first]);
    let duplicates = SchemeView::Duplicates { digest: world[first].digest };
    let duplicate = duplicates_path(
        config.duplicates,
        extension_of(first)->0,
        timestamp,
        world[first].digest,
        0,
    );
    assert(resolve(world, first, config, SchemeView::Organized, timestamp, 0) == relocated(
        world,
        first,
        organized,
        SchemeView::Organized,
    ));
    assert(place(second, config, duplicates, timestamp, 0) == Ok::<Seq<char>, ErrorView>(
        duplicate,
    ));
    assert(resolve(between, second, config, duplicates, timestamp, 0) == relocated(
        between,
        second,
        duplicate,
        duplicates,
    ));
    assert(same_file(between, second, organized));
    assert(resolve(between, second, config, SchemeView::Organized, timestamp, 0) == resolve(
        between,
        second,
        config,
        duplicates,
        timestamp,
        0,
    ));
}

} // verus!
