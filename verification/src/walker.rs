//! Walking the unorganized tree.
//!
//! `organize_directory` turns the listing of one directory into what is to be done
//! there, in order: the files of the directory first, by path, then its
//! subdirectories, by path, all of it between `DirStarted` and `DirFinished`. The
//! duplicates root is never walked.

use vstd::prelude::*;
use vstd::string::StringExecFns;
use crate::config::{Config, ConfigView};
use crate::error::{ErrorView, PhotisoError};
use crate::event::{EventView, PhotisoEvent};
use crate::path::{is_same_directory, same_directory};
use crate::text::chars_of;

verus! {

/// What a directory entry is.
#[derive(Clone, Copy, Debug, PartialEq, Eq, Structural)]
pub enum EntryKind {
    File,
    Directory,
    /// Neither a regular file nor a directory.
    Other,
}

/// One entry of a directory listing.
#[derive(Clone, Debug, PartialEq, Eq)]
pub struct DirEntry {
    pub path: String,
    pub kind: EntryKind,
}

pub struct DirEntryView {
    pub path: Seq<char>,
    pub kind: EntryKind,
}

impl View for DirEntry {
    type V = DirEntryView;

    open spec fn view(&self) -> DirEntryView {
        DirEntryView { path: self.path@, kind: self.kind }
    }
}

/// The views of a listing.
pub open spec fn entries_view(entries: Seq<DirEntry>) -> Seq<DirEntryView> {
    entries.map_values(|e: DirEntry| e@)
}

/// One thing to do while walking, for the caller to carry out.
#[derive(Clone, Debug, PartialEq, Eq)]
pub enum WalkAction {
    /// Report the event.
    Report(PhotisoEvent),
    /// Visit the file: run `organize_file` on it to the end.
    OrganizeFile(String),
    /// List the directory and carry out what `organize_directory` makes of it.
    OrganizeDirectory(String),
    /// End the run with the error.
    Abort(PhotisoError),
}

pub enum WalkActionView {
    Report(EventView),
    OrganizeFile(Seq<char>),
    OrganizeDirectory(Seq<char>),
    Abort(ErrorView),
}

impl View for WalkAction {
    type V = WalkActionView;

    open spec fn view(&self) -> WalkActionView {
        match *self {
            WalkAction::Report(event) => WalkActionView::Report(event@),
            WalkAction::OrganizeFile(file) => WalkActionView::OrganizeFile(file@),
            WalkAction::OrganizeDirectory(dir) => WalkActionView::OrganizeDirectory(dir@),
            WalkAction::Abort(error) => WalkActionView::Abort(error@),
        }
    }
}

/// The views of a list of actions.
pub open spec fn actions_view(actions: Seq<WalkAction>) -> Seq<WalkActionView> {
    actions.map_values(|a: WalkAction| a@)
}

/// Whether `first` comes before `second`, or is `second`, in the order of the
/// dictionary: character by character, a proper prefix before what it is a prefix of.
pub open spec fn path_le(first: Seq<char>, second: Seq<char>) -> bool
    decreases first.len(),
{
    if first.len() == 0 {
        true
    } else if second.len() == 0 {
        false
    } else if first[0] != second[0] {
        first[0] < second[0]
    } else {
        path_le(first.skip(1), second.skip(1))
    }
}

/// Whether each path of `paths` comes before all that follow it.
pub open spec fn is_ordered(paths: Seq<Seq<char>>) -> bool {
    forall|i: int, j: int| 0 <= i < j < paths.len() ==> path_le(paths[i], paths[j])
}

/// `ordered` with `path` put before the first path that does not come before it.
pub open spec fn inserted(ordered: Seq<Seq<char>>, path: Seq<char>) -> Seq<Seq<char>>
    decreases ordered.len(),
{
    if ordered.len() == 0 {
        seq![path]
    } else if path_le(path, ordered[0]) {
        seq![path] + ordered
    } else {
        seq![ordered[0]] + inserted(ordered.skip(1), path)
    }
}

/// The paths of `paths` in order.
pub open spec fn in_order(paths: Seq<Seq<char>>) -> Seq<Seq<char>>
    decreases paths.len(),
{
    if paths.len() == 0 {
        Seq::empty()
    } else {
        inserted(in_order(paths.drop_last()), paths.last())
    }
}

/// The path of an entry that is a regular file.
pub open spec fn file_of(entry: DirEntryView) -> Option<Seq<char>> {
    if entry.kind == EntryKind::File {
        Some(entry.path)
    } else {
        None
    }
}

/// The path of an entry that is a directory to walk: any directory but the duplicates
/// root.
pub open spec fn directory_of(entry: DirEntryView, config: ConfigView) -> Option<Seq<char>> {
    if entry.kind == EntryKind::Directory && !same_directory(entry.path, config.duplicates) {
        Some(entry.path)
    } else {
        None
    }
}

/// The paths of the regular files among `entries`, as listed.
pub open spec fn files_of(entries: Seq<DirEntryView>) -> Seq<Seq<char>> {
    entries.filter_map(|e: DirEntryView| file_of(e))
}

/// The paths of the directories to walk among `entries`, as listed.
pub open spec fn directories_of(entries: Seq<DirEntryView>, config: ConfigView) -> Seq<
    Seq<char>,
> {
    entries.filter_map(|e: DirEntryView| directory_of(e, config))
}

/// What is to be done in the directory `dir` with the listing `entries`: nothing in
/// the duplicates root, and elsewhere the files in order, then the directories in
/// order, between the two events of the directory.
pub open spec fn walk_plan(dir: Seq<char>, entries: Seq<DirEntryView>, config: ConfigView) -> Seq<
    WalkActionView,
> {
    if same_directory(dir, config.duplicates) {
        Seq::empty()
    } else {
        seq![WalkActionView::Report(EventView::DirStarted { dir })] + in_order(
            files_of(entries),
        ).map_values(|file: Seq<char>| WalkActionView::OrganizeFile(file)) + in_order(
            directories_of(entries, config),
        ).map_values(|sub: Seq<char>| WalkActionView::OrganizeDirectory(sub)) + seq![
            WalkActionView::Report(EventView::DirFinished { dir }),
        ]
    }
}

/// Of two paths, one comes before the other or is the other.
pub proof fn lemma_path_le_total(first: Seq<char>, second: Seq<char>)
    ensures
        path_le(first, second) || path_le(second, first),
    decreases first.len(),
{
    if first.len() > 0 && second.len() > 0 && first[0] == second[0] {
        lemma_path_le_total(first.skip(1), second.skip(1));
    }
}

/// The order of the dictionary goes on: what comes before the path that comes before
/// a third comes before the third.
pub proof fn lemma_path_le_transitive(first: Seq<char>, second: Seq<char>, third: Seq<char>)
    requires
        path_le(first, second),
        path_le(second, third),
    ensures
        path_le(first, third),
    decreases first.len(),
{
    if first.len() > 0 && second.len() > 0 && third.len() > 0 {
        if first[0] == second[0] && second[0] == third[0] {
            lemma_path_le_transitive(first.skip(1), second.skip(1), third.skip(1));
        }
    }
}

/// Two paths that each come before the other are the same path.
pub proof fn lemma_path_le_antisymmetric(first: Seq<char>, second: Seq<char>)
    requires
        path_le(first, second),
        path_le(second, first),
    ensures
        first == second,
    decreases first.len(),
{
    if first.len() > 0 && second.len() > 0 {
        lemma_path_le_antisymmetric(first.skip(1), second.skip(1));
        assert(first =~= seq![first[0]] + first.skip(1));
        assert(second =~= seq![second[0]] + second.skip(1));
    } else {
        assert(first =~= second);
    }
}

/// Putting a path into an ordered list leaves the list ordered, and adds that path to
/// what the list holds.
pub proof fn lemma_inserted(ordered: Seq<Seq<char>>, path: Seq<char>)
    requires
        is_ordered(ordered),
    ensures
        is_ordered(inserted(ordered, path)),
        inserted(ordered, path).to_multiset() == ordered.to_multiset().insert(path),
        inserted(ordered, path).len() == ordered.len() + 1,
    decreases ordered.len(),
{
    broadcast use vstd::seq_lib::group_to_multiset_ensures;

    let out = inserted(ordered, path);
    if ordered.len() == 0 {
        assert(ordered =~= Seq::empty());
        assert(out =~= Seq::<Seq<char>>::empty().push(path));
    } else if path_le(path, ordered[0]) {
        assert forall|i: int, j: int| 0 <= i < j < out.len() implies path_le(out[i], out[j]) by {
            if i == 0 {
                if j - 1 > 0 {
                    lemma_path_le_transitive(path, ordered[0], ordered[j - 1]);
                }
            } else {
                assert(out[i] == ordered[i - 1] && out[j] == ordered[j - 1]);
            }
        }
        assert(out =~= ordered.insert(0, path));
        vstd::seq_lib::to_multiset_insert(ordered, 0, path);
    } else {
        let rest = ordered.skip(1);
        assert forall|i: int, j: int| 0 <= i < j < rest.len() implies path_le(rest[i], rest[j]) by {
            assert(rest[i] == ordered[i + 1] && rest[j] == ordered[j + 1]);
        }
        lemma_inserted(rest, path);
        let tail = inserted(rest, path);
        lemma_path_le_total(path, ordered[0]);
        assert forall|i: int, j: int| 0 <= i < j < out.len() implies path_le(out[i], out[j]) by {
            if i == 0 {
                // every path of the tail is `path` or a path of `rest`
                assert(tail.to_multiset().count(out[j]) > 0) by {
                    assert(tail[j - 1] == out[j]);
                }
                if out[j] != path {
                    assert(rest.to_multiset().count(out[j]) > 0);
                    let k = choose|k: int| 0 <= k < rest.len() && rest[k] == out[j];
                    assert(ordered[k + 1] == out[j]);
                }
            } else {
                assert(out[i] == tail[i - 1] && out[j] == tail[j - 1]);
            }
        }
        assert(out =~= tail.insert(0, ordered[0]));
        vstd::seq_lib::to_multiset_insert(tail, 0, ordered[0]);
        assert(ordered =~= rest.insert(0, ordered[0]));
        vstd::seq_lib::to_multiset_insert(rest, 0, ordered[0]);
        assert(out.to_multiset() =~= ordered.to_multiset().insert(path));
    }
}

/// `in_order` sorts: its result is ordered, and holds each path as often as the list
/// it was made from.
pub proof fn lemma_in_order_sorts(paths: Seq<Seq<char>>)
    ensures
        is_ordered(in_order(paths)),
        in_order(paths).to_multiset() == paths.to_multiset(),
        in_order(paths).len() == paths.len(),
    decreases paths.len(),
{
    broadcast use vstd::seq_lib::group_to_multiset_ensures;

    if paths.len() == 0 {
        assert(paths =~= Seq::empty());
    } else {
        lemma_in_order_sorts(paths.drop_last());
        lemma_inserted(in_order(paths.drop_last()), paths.last());
        assert(paths =~= paths.drop_last().push(paths.last()));
    }
}

/// The views of a list of paths.
pub open spec fn paths_view(paths: Seq<String>) -> Seq<Seq<char>> {
    paths.map_values(|p: String| p@)
}

/// Where `inserted` puts a path: before the first path that does not come before it.
proof fn lemma_inserted_at(ordered: Seq<Seq<char>>, path: Seq<char>, at: int)
    requires
        0 <= at <= ordered.len(),
        forall|j: int| 0 <= j < at ==> !path_le(path, ordered[j]),
        at < ordered.len() ==> path_le(path, ordered[at]),
    ensures
        inserted(ordered, path) == ordered.insert(at, path),
    decreases at,
{
    if at == 0 {
        assert(inserted(ordered, path) =~= ordered.insert(0, path));
    } else {
        let rest = ordered.skip(1);
        assert forall|j: int| 0 <= j < at - 1 implies !path_le(path, rest[j]) by {
            assert(rest[j] == ordered[j + 1]);
        }
        lemma_inserted_at(rest, path, at - 1);
        assert(seq![ordered[0]] + rest.insert(at - 1, path) =~= ordered.insert(at, path));
    }
}

/// Whether `first` comes before `second`, or is `second`, in the order of the
/// dictionary.
pub fn comes_before(first: &str, second: &str) -> (b: bool)
    ensures
        b == path_le(first@, second@),
{
    let x = chars_of(first);
    let y = chars_of(second);
    let mut i: usize = 0;
    assert(x@.skip(0) == x@ && y@.skip(0) == y@);
    loop
        invariant
            i <= x.len(),
            i <= y.len(),
            x@ == first@,
            y@ == second@,
            path_le(x@, y@) == path_le(x@.skip(i as int), y@.skip(i as int)),
        decreases x.len() - i,
    {
        if i == x.len() {
            return true;
        }
        if i == y.len() {
            return false;
        }
        if x[i] != y[i] {
            return x[i] < y[i];
        }
        assert(x@.skip(i as int).skip(1) == x@.skip(i + 1));
        assert(y@.skip(i as int).skip(1) == y@.skip(i + 1));
        i += 1;
    }
}

/// Puts `path` into the ordered list `ordered`.
fn insert_in_order(ordered: &mut Vec<String>, path: String)
    ensures
        paths_view(final(ordered)@) == inserted(paths_view(old(ordered)@), path@),
{
    let mut at: usize = 0;
    while at < ordered.len() && !comes_before(path.as_str(), ordered[at].as_str())
        invariant
            at <= ordered.len(),
            ordered@ == old(ordered)@,
            forall|j: int| 0 <= j < at ==> !path_le(path@, paths_view(ordered@)[j]),
        decreases ordered.len() - at,
    {
        at += 1;
    }
    proof {
        lemma_inserted_at(paths_view(ordered@), path@, at as int);
    }
    let ghost before = ordered@;
    ordered.insert(at, path);
    assert(paths_view(ordered@) =~= paths_view(before).insert(at as int, path@));
}

/// The plan for the directory `dir_path`, of which `entries` is the listing.
fn plan_directory(dir_path: &str, entries: &Vec<DirEntry>, config: &Config) -> (actions: Vec<
    WalkAction,
>)
    ensures
        actions_view(actions@) == walk_plan(dir_path@, entries_view(entries@), config@),
{
    let mut actions: Vec<WalkAction> = Vec::new();
    if is_same_directory(dir_path, config.directories.duplicates.as_str()) {
        assert(actions_view(actions@) =~= Seq::<WalkActionView>::empty());
        return actions;
    }
    let ghost listing = entries_view(entries@);
    let ghost pick_file = |e: DirEntryView| file_of(e);
    let ghost pick_directory = |e: DirEntryView| directory_of(e, config@);
    let mut files: Vec<String> = Vec::new();
    let mut directories: Vec<String> = Vec::new();
    let mut i: usize = 0;
    assert(paths_view(files@) =~= in_order(listing.take(0).filter_map(pick_file)));
    assert(paths_view(directories@) =~= in_order(listing.take(0).filter_map(pick_directory)));
    while i < entries.len()
        invariant
            i <= entries.len(),
            listing == entries_view(entries@),
            pick_file == |e: DirEntryView| file_of(e),
            pick_directory == |e: DirEntryView| directory_of(e, config@),
            paths_view(files@) == in_order(listing.take(i as int).filter_map(pick_file)),
            paths_view(directories@) == in_order(
                listing.take(i as int).filter_map(pick_directory),
            ),
        decreases entries.len() - i,
    {
        let entry = &entries[i];
        proof {
            listing.lemma_filter_map_take_succ(pick_file, i as int);
            listing.lemma_filter_map_take_succ(pick_directory, i as int);
            assert(listing[i as int] == entry@);
        }
        let ghost seen_files = listing.take(i as int).filter_map(pick_file);
        let ghost seen_directories = listing.take(i as int).filter_map(pick_directory);
        match entry.kind {
            EntryKind::File => {
                insert_in_order(&mut files, entry.path.clone());
                proof {
                    let now = listing.take(i + 1).filter_map(pick_file);
                    assert(now =~= seen_files.push(entry@.path));
                    assert(now.drop_last() =~= seen_files);
                    assert(listing.take(i + 1).filter_map(pick_directory) =~= seen_directories);
                }
            },
            EntryKind::Directory => {
                if !is_same_directory(
                    entry.path.as_str(),
                    config.directories.duplicates.as_str(),
                ) {
                    insert_in_order(&mut directories, entry.path.clone());
                    proof {
                        let now = listing.take(i + 1).filter_map(pick_directory);
                        assert(now =~= seen_directories.push(entry@.path));
                        assert(now.drop_last() =~= seen_directories);
                    }
                } else {
                    assert(listing.take(i + 1).filter_map(pick_directory) =~= seen_directories);
                }
                assert(listing.take(i + 1).filter_map(pick_file) =~= seen_files);
            },
            EntryKind::Other => {
                assert(listing.take(i + 1).filter_map(pick_file) =~= seen_files);
                assert(listing.take(i + 1).filter_map(pick_directory) =~= seen_directories);
            },
        }
        i += 1;
    }
    assert(listing.take(entries.len() as int) == listing);
    let ghost opening = WalkActionView::Report(EventView::DirStarted { dir: dir_path@ });
    let ghost closing = WalkActionView::Report(EventView::DirFinished { dir: dir_path@ });
    let ghost to_file = |file: Seq<char>| WalkActionView::OrganizeFile(file);
    let ghost to_directory = |sub: Seq<char>| WalkActionView::OrganizeDirectory(sub);
    actions.push(WalkAction::Report(PhotisoEvent::DirStarted { dir: String::from_str(dir_path) }));
    assert(actions_view(actions@) =~= seq![opening]);
    let mut f: usize = 0;
    while f < files.len()
        invariant
            f <= files.len(),
            to_file == |file: Seq<char>| WalkActionView::OrganizeFile(file),
            actions_view(actions@) == seq![opening] + paths_view(files@).take(f as int).map_values(
                to_file,
            ),
        decreases files.len() - f,
    {
        let ghost before = actions_view(actions@);
        actions.push(WalkAction::OrganizeFile(files[f].clone()));
        f += 1;
        assert(actions_view(actions@) =~= before.push(to_file(paths_view(files@)[f - 1])));
        assert(paths_view(files@).take(f as int).map_values(to_file) =~= paths_view(files@).take(
            f - 1,
        ).map_values(to_file).push(to_file(paths_view(files@)[f - 1])));
    }
    assert(paths_view(files@).take(files.len() as int) == paths_view(files@));
    let ghost with_files = actions_view(actions@);
    let mut d: usize = 0;
    while d < directories.len()
        invariant
            d <= directories.len(),
            to_directory == |sub: Seq<char>| WalkActionView::OrganizeDirectory(sub),
            actions_view(actions@) == with_files + paths_view(directories@).take(
                d as int,
            ).map_values(to_directory),
        decreases directories.len() - d,
    {
        let ghost before = actions_view(actions@);
        actions.push(WalkAction::OrganizeDirectory(directories[d].clone()));
        d += 1;
        assert(actions_view(actions@) =~= before.push(
            to_directory(paths_view(directories@)[d - 1]),
        ));
        assert(paths_view(directories@).take(d as int).map_values(to_directory) =~= paths_view(
            directories@,
        ).take(d - 1).map_values(to_directory).push(
            to_directory(paths_view(directories@)[d - 1]),
        ));
    }
    assert(paths_view(directories@).take(directories.len() as int) == paths_view(directories@));
    let ghost with_directories = actions_view(actions@);
    actions.push(
        WalkAction::Report(PhotisoEvent::DirFinished { dir: String::from_str(dir_path) }),
    );
    assert(actions_view(actions@) =~= with_directories + seq![closing]);
    actions
}

/// A listing, or the message of the failure to list, as the caller hands it in.
pub open spec fn listing_view(listing: Result<Vec<DirEntry>, String>) -> Result<
    Seq<DirEntryView>,
    Seq<char>,
> {
    match listing {
        Ok(entries) => Ok(entries_view(entries@)),
        Err(message) => Err(message@),
    }
}

/// What is to be done in the directory `dir`: nothing in the duplicates root, which
/// is not even listed; elsewhere the plan of the listing, and where the directory
/// could not be listed, the opening event and then the error that ends the run.
pub open spec fn walk_outcome(
    dir: Seq<char>,
    listing: Result<Seq<DirEntryView>, Seq<char>>,
    config: ConfigView,
) -> Seq<WalkActionView> {
    if same_directory(dir, config.duplicates) {
        Seq::empty()
    } else {
        match listing {
            Ok(entries) => walk_plan(dir, entries, config),
            Err(message) => seq![
                WalkActionView::Report(EventView::DirStarted { dir }),
                WalkActionView::Abort(ErrorView::DirectoryList(message)),
            ],
        }
    }
}

/// What is to be done in the directory `dir_path`, of which `listing` is the listing,
/// or the message of the failure to list it.
///
/// Nothing is done in the duplicates root. Elsewhere the visit opens with
/// `DirStarted`. A directory that could not be listed then ends the run with an
/// error. For one that could, the regular files come next in the order of their
/// paths, then the subdirectories in the order of their paths, the duplicates root
/// left out, and `DirFinished` closes the visit. An entry that is neither file nor
/// directory is passed over.
pub fn organize_directory(
    dir_path: &str,
    listing: Result<Vec<DirEntry>, String>,
    config: &Config,
) -> (actions: Vec<WalkAction>)
    ensures
        actions_view(actions@) == walk_outcome(dir_path@, listing_view(listing), config@),
{
    match listing {
        Ok(entries) => plan_directory(dir_path, &entries, config),
        Err(message) => {
            let mut actions: Vec<WalkAction> = Vec::new();
            if !is_same_directory(dir_path, config.directories.duplicates.as_str()) {
                let opening = WalkAction::Report(
                    PhotisoEvent::DirStarted { dir: String::from_str(dir_path) },
                );
                let closing = WalkAction::Abort(PhotisoError::DirectoryList(message));
                actions.push(opening);
                actions.push(closing);
                assert(actions_view(actions@) =~= seq![opening@, closing@]);
            } else {
                assert(actions_view(actions@) =~= Seq::<WalkActionView>::empty());
            }
            actions
        },
    }
}

/// The duplicates root is never walked: no plan has anything to do in it, and no plan
/// sends the walk into it.
pub proof fn lemma_duplicates_root_is_never_walked(
    dir: Seq<char>,
    entries: Seq<DirEntryView>,
    config: ConfigView,
    sub: Seq<char>,
)
    requires
        same_directory(sub, config.duplicates),
    ensures
        same_directory(dir, config.duplicates) ==> walk_plan(dir, entries, config).len() == 0,
        !walk_plan(dir, entries, config).contains(WalkActionView::OrganizeDirectory(sub)),
{
    let plan = walk_plan(dir, entries, config);
    let banned = WalkActionView::OrganizeDirectory(sub);
    if plan.contains(banned) {
        let listed = directories_of(entries, config);
        let pick = |e: DirEntryView| directory_of(e, config);
        let at = choose|i: int| 0 <= i < plan.len() && plan[i] == banned;
        let files = in_order(files_of(entries));
        let directories = in_order(listed);
        let among = at - 1 - files.len();
        assert(0 <= among < directories.len() && directories[among] == sub);
        lemma_in_order_sorts(listed);
        vstd::seq_lib::to_multiset_contains(directories, sub);
        vstd::seq_lib::to_multiset_contains(listed, sub);
        entries.lemma_filter_map_contains(pick, sub);
    }
}

} // verus!
