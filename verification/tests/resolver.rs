use photiso::classifier::{is_exempt, is_photo_file, SkipReason};
use photiso::config::Config;
use photiso::error::PhotisoError;
use photiso::event::PhotisoEvent;
use photiso::naming::{get_photo_destination_path, get_photo_duplicates_path};
use photiso::resolver::{
    are_same_file_contents, candidate_path, move_to_duplicates, organize_file, FileState, Reply,
    Request, Scheme,
};
use photiso::timestamp::Timestamp;
use std::collections::BTreeMap;

#[derive(Clone, Debug, PartialEq)]
struct Photo {
    bytes: Vec<u8>,
    timestamp: Timestamp,
}

/// A file system in memory that answers truthfully.
#[derive(Clone, Debug, PartialEq)]
struct Tree {
    files: BTreeMap<String, Photo>,
    requests: Vec<Request>,
}

fn digest(bytes: &[u8]) -> String {
    let mut sum: u64 = 0xcbf29ce484222325;
    for b in bytes {
        sum ^= u64::from(*b);
        sum = sum.wrapping_mul(0x100000001b3);
    }
    format!("{:016x}", sum)
}

impl Tree {
    fn new() -> Tree {
        Tree { files: BTreeMap::new(), requests: Vec::new() }
    }

    fn with(mut self, path: &str, bytes: &[u8], timestamp: Timestamp) -> Tree {
        self.files.insert(String::from(path), Photo { bytes: bytes.to_vec(), timestamp });
        self
    }

    fn has(&self, path: &str) -> bool {
        self.files.contains_key(path)
    }

    fn bytes(&self, path: &str) -> &[u8] {
        &self.files[path].bytes
    }

    fn answer(&mut self, file: &str, request: &Request) -> Reply {
        self.requests.push(request.clone());
        match request {
            Request::ResolveTimestamp => Reply::Timestamp(self.files[file].timestamp),
            Request::Probe { path } => Reply::Exists(self.has(path)),
            Request::MeasureLengths { path } => Reply::Lengths {
                source_length: self.files[file].bytes.len() as u64,
                other_length: self.files[path].bytes.len() as u64,
            },
            Request::ComputeDigests { path } => Reply::Digests {
                source_digest: digest(&self.files[file].bytes),
                other_digest: digest(&self.files[path].bytes),
            },
            Request::Move { to } => {
                assert!(!self.has(to), "a move must never overwrite: {}", to);
                let photo = self.files.remove(file).unwrap();
                self.files.insert(to.clone(), photo);
                Reply::Moved
            }
            Request::Done => unreachable!(),
        }
    }

    /// Plays a whole visit of `file` and gives its events.
    fn visit(&mut self, file: &str, config: &Config) -> Vec<PhotisoEvent> {
        let is_regular_file = self.has(file);
        let mut events = Vec::new();
        let mut step = organize_file(file, FileState::Start, Reply::Begin { is_regular_file }, config);
        loop {
            events.extend(step.events.iter().cloned());
            if step.request == Request::Done {
                assert_eq!(step.state, FileState::Done);
                return events;
            }
            let reply = self.answer(file, &step.request);
            step = organize_file(file, step.state, reply, config);
        }
    }
}

fn config() -> Config {
    Config::new(String::from("unorganized"), String::from("organized"), String::from("duplicates"))
}

fn at(hour: u32) -> Timestamp {
    Timestamp { year: 2021, month: 5, day: 1, hour, minute: 0, second: 0, nanosecond: 0 }
}

fn started(file: &str) -> PhotisoEvent {
    PhotisoEvent::FileStarted { file: String::from(file) }
}

fn finished(file: &str) -> PhotisoEvent {
    PhotisoEvent::FileFinished { file: String::from(file) }
}

fn moved(from: &str, to: &str) -> PhotisoEvent {
    PhotisoEvent::Moved { from: String::from(from), to: String::from(to) }
}

fn duplicate_moved(from: &str, to: &str) -> PhotisoEvent {
    PhotisoEvent::DuplicateMoved { from: String::from(from), to: String::from(to) }
}

fn no_op(file: &str) -> PhotisoEvent {
    PhotisoEvent::NoOp { file: String::from(file) }
}

const TEN: &str = "organized/2021/05/2021-05-01 10-00-00-000000000.jpg";
const TEN_001: &str = "organized/2021/05/2021-05-01 10-00-00-000000000 001.jpg";
const TEN_002: &str = "organized/2021/05/2021-05-01 10-00-00-000000000 002.jpg";
const ELEVEN: &str = "organized/2021/05/2021-05-01 11-00-00-000000000.jpg";

#[test]
fn a_photo_moves_to_its_place() {
    let mut tree = Tree::new().with("unorganized/a.jpg", b"sunset", at(10));
    let events = tree.visit("unorganized/a.jpg", &config());
    assert_eq!(
        events,
        vec![started("unorganized/a.jpg"), moved("unorganized/a.jpg", TEN), finished("unorganized/a.jpg")]
    );
    assert!(tree.has(TEN));
    assert!(!tree.has("unorganized/a.jpg"));
    assert_eq!(tree.bytes(TEN), b"sunset");
    assert_eq!(
        tree.requests,
        vec![
            Request::ResolveTimestamp,
            Request::Probe { path: String::from(TEN) },
            Request::Move { to: String::from(TEN) },
        ]
    );
}

#[test]
fn same_bytes_with_other_timestamps_are_both_organized() {
    let mut tree = Tree::new()
        .with("unorganized/a.jpg", b"sunset", at(10))
        .with("unorganized/b.jpg", b"sunset", at(11));
    let first = tree.visit("unorganized/a.jpg", &config());
    let second = tree.visit("unorganized/b.jpg", &config());
    assert_eq!(first[1], moved("unorganized/a.jpg", TEN));
    assert_eq!(second[1], moved("unorganized/b.jpg", ELEVEN));
    assert!(tree.has(TEN) && tree.has(ELEVEN));
    assert_eq!(tree.files.len(), 2);
}

#[test]
fn same_bytes_with_the_same_timestamp_go_to_duplicates() {
    let mut tree = Tree::new()
        .with("unorganized/a.jpg", b"sunset", at(10))
        .with("unorganized/b.jpg", b"sunset", at(10));
    let first = tree.visit("unorganized/a.jpg", &config());
    let second = tree.visit("unorganized/b.jpg", &config());
    let quarantine = format!("duplicates/2021/05/{}.jpg", digest(b"sunset"));
    assert_eq!(first[1], moved("unorganized/a.jpg", TEN));
    assert_eq!(
        second,
        vec![
            started("unorganized/b.jpg"),
            duplicate_moved("unorganized/b.jpg", &quarantine),
            finished("unorganized/b.jpg"),
        ]
    );
    assert!(tree.has(TEN) && tree.has(&quarantine));
    assert_eq!(tree.files.len(), 2);
}

#[test]
fn an_unrelated_occupant_sends_the_photo_to_index_one() {
    let mut tree = Tree::new()
        .with(TEN, b"mountain", at(10))
        .with("unorganized/a.jpg", b"sunset", at(10));
    let events = tree.visit("unorganized/a.jpg", &config());
    assert_eq!(events[1], moved("unorganized/a.jpg", TEN_001));
    assert_eq!(tree.bytes(TEN), b"mountain");
    assert_eq!(tree.bytes(TEN_001), b"sunset");
}

#[test]
fn an_occupant_of_another_length_is_not_hashed() {
    let mut tree = Tree::new()
        .with(TEN, b"a much longer file", at(10))
        .with("unorganized/a.jpg", b"sunset", at(10));
    tree.visit("unorganized/a.jpg", &config());
    assert_eq!(
        tree.requests,
        vec![
            Request::ResolveTimestamp,
            Request::Probe { path: String::from(TEN) },
            Request::MeasureLengths { path: String::from(TEN) },
            Request::Probe { path: String::from(TEN_001) },
            Request::Move { to: String::from(TEN_001) },
        ]
    );
}

#[test]
fn an_occupant_of_the_same_length_is_hashed() {
    let mut tree = Tree::new()
        .with(TEN, b"sunrise!", at(10))
        .with("unorganized/a.jpg", b"sunset!!", at(10));
    let events = tree.visit("unorganized/a.jpg", &config());
    assert_eq!(events[1], moved("unorganized/a.jpg", TEN_001));
    assert_eq!(
        tree.requests,
        vec![
            Request::ResolveTimestamp,
            Request::Probe { path: String::from(TEN) },
            Request::MeasureLengths { path: String::from(TEN) },
            Request::ComputeDigests { path: String::from(TEN) },
            Request::Probe { path: String::from(TEN_001) },
            Request::Move { to: String::from(TEN_001) },
        ]
    );
}

#[test]
fn several_occupants_are_passed_in_turn() {
    let mut tree = Tree::new()
        .with(TEN, b"one", at(10))
        .with(TEN_001, b"two", at(10))
        .with("unorganized/a.jpg", b"three", at(10));
    let events = tree.visit("unorganized/a.jpg", &config());
    assert_eq!(events[1], moved("unorganized/a.jpg", TEN_002));
}

#[test]
fn a_twin_behind_a_stranger_goes_to_duplicates() {
    let mut tree = Tree::new()
        .with(TEN, b"mountain", at(10))
        .with(TEN_001, b"sunset", at(10))
        .with("unorganized/b.jpg", b"sunset", at(10));
    let events = tree.visit("unorganized/b.jpg", &config());
    let quarantine = format!("duplicates/2021/05/{}.jpg", digest(b"sunset"));
    assert_eq!(events[1], duplicate_moved("unorganized/b.jpg", &quarantine));
}

#[test]
fn an_occupied_duplicates_place_sends_the_file_to_index_one() {
    let quarantine = format!("duplicates/2021/05/{}.jpg", digest(b"sunset"));
    let second = format!("duplicates/2021/05/{}.001.jpg", digest(b"sunset"));
    let third = format!("duplicates/2021/05/{}.002.jpg", digest(b"sunset"));
    let mut tree = Tree::new()
        .with(TEN, b"sunset", at(10))
        .with(&quarantine, b"sunset", at(10))
        .with("unorganized/c.jpg", b"sunset", at(10))
        .with("unorganized/d.jpg", b"sunset", at(10));
    let events = tree.visit("unorganized/c.jpg", &config());
    assert_eq!(events[1], duplicate_moved("unorganized/c.jpg", &second));
    let events = tree.visit("unorganized/d.jpg", &config());
    assert_eq!(events[1], duplicate_moved("unorganized/d.jpg", &third));
    assert_eq!(tree.files.len(), 4);
}

#[test]
fn in_the_duplicates_tree_contents_are_not_compared() {
    let quarantine = format!("duplicates/2021/05/{}.jpg", digest(b"sunset"));
    let mut tree = Tree::new()
        .with(TEN, b"sunset", at(10))
        .with(&quarantine, b"something else", at(10))
        .with("unorganized/c.jpg", b"sunset", at(10));
    tree.visit("unorganized/c.jpg", &config());
    let asked_twice = tree
        .requests
        .iter()
        .filter(|r| matches!(r, Request::MeasureLengths { .. } | Request::ComputeDigests { .. }))
        .count();
    assert_eq!(asked_twice, 2);
}

#[test]
fn a_file_in_its_place_stays() {
    let mut tree = Tree::new().with(TEN, b"sunset", at(10));
    let before = tree.files.clone();
    let events = tree.visit(TEN, &config());
    assert_eq!(events, vec![started(TEN), no_op(TEN), finished(TEN)]);
    assert_eq!(tree.files, before);
}

#[test]
fn a_file_at_a_later_index_stays() {
    let mut tree = Tree::new().with(TEN, b"mountain", at(10)).with(TEN_001, b"sunset", at(10));
    let before = tree.files.clone();
    let events = tree.visit(TEN_001, &config());
    assert_eq!(events[1], no_op(TEN_001));
    assert_eq!(tree.files, before);
}

#[test]
fn a_second_visit_changes_nothing() {
    let mut tree = Tree::new()
        .with(TEN, b"mountain", at(10))
        .with("unorganized/a.jpg", b"sunset", at(10))
        .with("unorganized/b.jpg", b"sunset", at(10))
        .with("unorganized/notes.txt", b"text", at(10))
        .with("unorganized/keep!.jpg", b"kept", at(10));
    let mut rests = Vec::new();
    for file in ["unorganized/a.jpg", "unorganized/b.jpg", "unorganized/notes.txt", "unorganized/keep!.jpg"] {
        let events = tree.visit(file, &config());
        rests.push(match &events[1] {
            PhotisoEvent::Moved { to, .. } => to.clone(),
            PhotisoEvent::DuplicateMoved { to, .. } => to.clone(),
            _ => String::from(file),
        });
    }
    let after_first_run = tree.files.clone();
    for rest in &rests {
        let events = tree.visit(rest, &config());
        assert!(
            matches!(events[1], PhotisoEvent::NoOp { .. } | PhotisoEvent::Skipped { .. }),
            "{:?}",
            events
        );
        assert_eq!(tree.files, after_first_run);
    }
}

#[test]
fn no_move_ever_overwrites() {
    let mut tree = Tree::new();
    let names: Vec<String> = (0..12).map(|i| format!("unorganized/p{:02}.jpg", i)).collect();
    for (i, name) in names.iter().enumerate() {
        let bytes = [b'x', (i % 4) as u8];
        tree = tree.with(name, &bytes, at(10));
    }
    let mut contents: Vec<Vec<u8>> = tree.files.values().map(|p| p.bytes.clone()).collect();
    for name in &names {
        tree.visit(name, &config());
    }
    let mut after: Vec<Vec<u8>> = tree.files.values().map(|p| p.bytes.clone()).collect();
    contents.sort();
    after.sort();
    assert_eq!(contents, after);
    assert_eq!(tree.files.keys().filter(|k| k.starts_with("organized/")).count(), 4);
    assert_eq!(tree.files.keys().filter(|k| k.starts_with("duplicates/")).count(), 8);
}

#[test]
fn an_exempt_file_is_never_moved() {
    for (bytes, hour) in [(&b"sunset"[..], 10), (&b""[..], 0), (&b"other"[..], 23)] {
        let mut tree = Tree::new()
            .with(TEN, b"sunset", at(10))
            .with("unorganized/vacation!2020.jpg", bytes, at(hour));
        let before = tree.files.clone();
        let events = tree.visit("unorganized/vacation!2020.jpg", &config());
        assert_eq!(
            events,
            vec![
                started("unorganized/vacation!2020.jpg"),
                PhotisoEvent::Skipped {
                    file: String::from("unorganized/vacation!2020.jpg"),
                    reason: SkipReason::ExemptionMarker,
                },
                finished("unorganized/vacation!2020.jpg"),
            ]
        );
        assert_eq!(tree.files, before);
        assert!(tree.requests.is_empty());
    }
}

#[test]
fn what_is_no_photo_is_skipped() {
    let mut tree = Tree::new().with("unorganized/notes.txt", b"text", at(10));
    let events = tree.visit("unorganized/notes.txt", &config());
    assert_eq!(
        events,
        vec![
            started("unorganized/notes.txt"),
            PhotisoEvent::Skipped {
                file: String::from("unorganized/notes.txt"),
                reason: SkipReason::NotAPhoto,
            },
            finished("unorganized/notes.txt"),
        ]
    );
    let events = tree.visit("unorganized/missing.jpg", &config());
    assert!(matches!(events[1], PhotisoEvent::Skipped { reason: SkipReason::NotAPhoto, .. }));
}

#[test]
fn upper_case_extension_is_organized_in_lower_case() {
    let mut tree = Tree::new().with("unorganized/IMG_0001.JPG", b"sunset", at(10));
    let events = tree.visit("unorganized/IMG_0001.JPG", &config());
    assert_eq!(events[1], moved("unorganized/IMG_0001.JPG", TEN));
}

fn error_of(step: &photiso::resolver::Step) -> PhotisoError {
    assert_eq!(step.request, Request::Done);
    assert_eq!(step.state, FileState::Done);
    assert_eq!(step.events.len(), 2);
    assert_eq!(step.events[1], finished("unorganized/a.jpg"));
    match &step.events[0] {
        PhotisoEvent::FileError { file, error } => {
            assert_eq!(file, "unorganized/a.jpg");
            error.clone()
        }
        other => panic!("{:?}", other),
    }
}

#[test]
fn a_failed_timestamp_is_a_metadata_error() {
    let step = organize_file(
        "unorganized/a.jpg",
        FileState::AwaitTimestamp,
        Reply::Failed(String::from("no date")),
        &config(),
    );
    assert_eq!(error_of(&step), PhotisoError::Metadata(String::from("no date")));
}

#[test]
fn a_failed_measurement_is_a_hash_error() {
    let step = organize_file(
        "unorganized/a.jpg",
        FileState::AwaitLengths { timestamp: at(10), conflict: 0 },
        Reply::Failed(String::from("unreadable")),
        &config(),
    );
    assert_eq!(error_of(&step), PhotisoError::Hash(String::from("unreadable")));
    let step = organize_file(
        "unorganized/a.jpg",
        FileState::AwaitDigests { timestamp: at(10), conflict: 0, source_length: 1, other_length: 1 },
        Reply::Failed(String::from("unreadable")),
        &config(),
    );
    assert_eq!(error_of(&step), PhotisoError::Hash(String::from("unreadable")));
}

#[test]
fn a_failed_move_is_a_move_error() {
    let step = organize_file(
        "unorganized/a.jpg",
        FileState::AwaitMove { to: String::from(TEN), duplicate: false },
        Reply::Failed(String::from("disk full")),
        &config(),
    );
    assert_eq!(error_of(&step), PhotisoError::Move(String::from("disk full")));
    let step = organize_file(
        "unorganized/a.jpg",
        FileState::AwaitProbe { scheme: Scheme::Organized, timestamp: at(10), conflict: 0 },
        Reply::Failed(String::from("no access")),
        &config(),
    );
    assert_eq!(error_of(&step), PhotisoError::Move(String::from("no access")));
}

#[test]
fn an_invalid_timestamp_is_an_error() {
    let never = Timestamp { year: 2021, month: 2, day: 30, hour: 0, minute: 0, second: 0, nanosecond: 0 };
    let step = organize_file(
        "unorganized/a.jpg",
        FileState::AwaitTimestamp,
        Reply::Timestamp(never),
        &config(),
    );
    assert_eq!(error_of(&step), PhotisoError::InvalidTimestamp);
}

#[test]
fn a_reply_to_another_request_is_an_error() {
    let step = organize_file("unorganized/a.jpg", FileState::AwaitTimestamp, Reply::Moved, &config());
    assert_eq!(error_of(&step), PhotisoError::UnexpectedReply);
    let step = organize_file(
        "unorganized/a.jpg",
        FileState::AwaitMove { to: String::from(TEN), duplicate: false },
        Reply::Exists(false),
        &config(),
    );
    assert_eq!(error_of(&step), PhotisoError::UnexpectedReply);
    let step = organize_file("unorganized/a.jpg", FileState::Start, Reply::Moved, &config());
    assert_eq!(
        step.events,
        vec![
            started("unorganized/a.jpg"),
            PhotisoEvent::FileError {
                file: String::from("unorganized/a.jpg"),
                error: PhotisoError::UnexpectedReply,
            },
            finished("unorganized/a.jpg"),
        ]
    );
}

#[test]
fn after_the_last_index_the_search_gives_up() {
    let step = organize_file(
        "unorganized/a.jpg",
        FileState::AwaitProbe {
            scheme: Scheme::Duplicates { digest: String::from("h") },
            timestamp: at(10),
            conflict: u32::MAX,
        },
        Reply::Exists(true),
        &config(),
    );
    assert_eq!(error_of(&step), PhotisoError::ConflictLimit);
    let step = organize_file(
        "unorganized/a.jpg",
        FileState::AwaitLengths { timestamp: at(10), conflict: u32::MAX },
        Reply::Lengths { source_length: 1, other_length: 2 },
        &config(),
    );
    assert_eq!(error_of(&step), PhotisoError::ConflictLimit);
}

#[test]
fn a_finished_visit_asks_nothing_more() {
    let step = organize_file("unorganized/a.jpg", FileState::Done, Reply::Moved, &config());
    assert_eq!(step.state, FileState::Done);
    assert_eq!(step.request, Request::Done);
    assert!(step.events.is_empty());
}

#[test]
fn a_move_is_asked_only_for_a_free_place() {
    let probing = FileState::AwaitProbe { scheme: Scheme::Organized, timestamp: at(10), conflict: 0 };
    let free = organize_file("unorganized/a.jpg", probing.clone(), Reply::Exists(false), &config());
    assert_eq!(free.request, Request::Move { to: String::from(TEN) });
    assert_eq!(free.state, FileState::AwaitMove { to: String::from(TEN), duplicate: false });
    let taken = organize_file("unorganized/a.jpg", probing, Reply::Exists(true), &config());
    assert_eq!(taken.request, Request::MeasureLengths { path: String::from(TEN) });
}

#[test]
fn files_are_the_same_with_equal_length_and_digest() {
    assert_eq!(are_same_file_contents(3, 3, "abc", "abc"), Some(String::from("abc")));
    assert_eq!(are_same_file_contents(3, 4, "abc", "abc"), None);
    assert_eq!(are_same_file_contents(3, 3, "abc", "abd"), None);
    assert_eq!(are_same_file_contents(0, 0, "", ""), Some(String::new()));
}

#[test]
fn candidates_follow_the_scheme() {
    let organized = candidate_path("x/a.PNG", &Scheme::Organized, &at(10), 2, &config());
    assert_eq!(organized.unwrap(), "organized/2021/05/2021-05-01 10-00-00-000000000 002.png");
    let scheme = Scheme::Duplicates { digest: String::from("cafe") };
    let duplicate = candidate_path("x/a.PNG", &scheme, &at(10), 2, &config());
    assert_eq!(duplicate.unwrap(), "duplicates/2021/05/cafe.002.png");
}

#[test]
fn move_to_duplicates_probes_index_zero() {
    let step = move_to_duplicates("unorganized/b.jpg", &at(10), "cafe", &config());
    assert_eq!(step.request, Request::Probe { path: String::from("duplicates/2021/05/cafe.jpg") });
    assert!(step.events.is_empty());
    let home = "duplicates/2021/05/cafe.jpg";
    let step = move_to_duplicates(home, &at(10), "cafe", &config());
    assert_eq!(step.events, vec![no_op(home), finished(home)]);
    assert_eq!(step.request, Request::Done);
}

/// The search written as two plain loops over the tree.
fn plain_visit(files: &mut BTreeMap<String, Photo>, file: &str, config: &Config) -> PhotisoEvent {
    if !is_photo_file(file, files.contains_key(file)) {
        return PhotisoEvent::Skipped { file: String::from(file), reason: SkipReason::NotAPhoto };
    }
    if is_exempt(file) {
        return PhotisoEvent::Skipped { file: String::from(file), reason: SkipReason::ExemptionMarker };
    }
    let timestamp = files[file].timestamp;
    let mut conflict = 0;
    loop {
        let to = get_photo_destination_path(file, &timestamp, conflict, config).unwrap();
        if to == file {
            return no_op(file);
        }
        if !files.contains_key(&to) {
            let photo = files.remove(file).unwrap();
            files.insert(to.clone(), photo);
            return moved(file, &to);
        }
        if files[&to].bytes == files[file].bytes {
            break;
        }
        conflict += 1;
    }
    let hash = digest(&files[file].bytes);
    let mut conflict = 0;
    loop {
        let to = get_photo_duplicates_path(file, &timestamp, &hash, conflict, config).unwrap();
        if to == file {
            return no_op(file);
        }
        if !files.contains_key(&to) {
            let photo = files.remove(file).unwrap();
            files.insert(to.clone(), photo);
            return duplicate_moved(file, &to);
        }
        conflict += 1;
    }
}

#[test]
fn the_steps_agree_with_the_plain_loops() {
    let mut seed: u64 = 0x2545f4914f6cdd1d;
    let mut next = |bound: u64| {
        seed ^= seed << 13;
        seed ^= seed >> 7;
        seed ^= seed << 17;
        seed % bound
    };
    let names = ["a.jpg", "b.JPG", "c.png", "d!.jpg", "e.txt", "f.jpeg", "g.jpg", "h.jpg"];
    for _ in 0..300 {
        let mut tree = Tree::new();
        let mut sources = Vec::new();
        for name in names {
            if next(4) == 0 {
                continue;
            }
            let bytes = [b'x', next(3) as u8];
            let path = format!("unorganized/{}", name);
            tree = tree.with(&path, &bytes[..1 + next(2) as usize], at(10 + next(2) as u32));
            sources.push(path);
        }
        for _ in 0..next(4) {
            let bytes = [b'x', next(3) as u8];
            let hour = 10 + next(2) as u32;
            let taken = candidate_path("x.jpg", &Scheme::Organized, &at(hour), next(3) as u32, &config());
            tree = tree.with(&taken.unwrap(), &bytes[..1 + next(2) as usize], at(hour));
        }
        let mut plain = tree.files.clone();
        for source in &sources {
            let events = tree.visit(source, &config());
            let terminal = plain_visit(&mut plain, source, &config());
            assert_eq!(events, vec![started(source), terminal, finished(source)]);
            assert_eq!(tree.files, plain);
        }
    }
}
