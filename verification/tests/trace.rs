use photiso::classifier::SkipReason;
use photiso::config::Config;
use photiso::error::PhotisoError;
use photiso::event::PhotisoEvent;
use photiso::trace::{event_line, event_paths, on_photiso_event};

fn config() -> Config {
    Config::new(String::from("/in"), String::from("/out"), String::from("/dups"))
}

fn text(s: &str) -> Option<String> {
    Some(String::from(s))
}

#[test]
fn directory_line() {
    let event = PhotisoEvent::DirStarted { dir: String::from("/in/trip") };
    assert_eq!(on_photiso_event(&event, &config()), text("Dir: (unorganized)/\"trip\""));
    let event = PhotisoEvent::DirStarted { dir: String::from("/in") };
    assert_eq!(on_photiso_event(&event, &config()), text("Dir: (unorganized)/\"\""));
}

#[test]
fn file_line() {
    let event = PhotisoEvent::FileStarted { file: String::from("/in/trip/a.jpg") };
    assert_eq!(on_photiso_event(&event, &config()), text("  File: (unorganized)/\"trip/a.jpg\""));
}

#[test]
fn moved_line() {
    let event = PhotisoEvent::Moved {
        from: String::from("/in/a.jpg"),
        to: String::from("/out/2021/05/2021-05-01 10-00-00-000000000.jpg"),
    };
    assert_eq!(
        on_photiso_event(&event, &config()),
        text("    Moved: (unorganized)/\"a.jpg\" -> (organized)/\"2021/05/2021-05-01 10-00-00-000000000.jpg\"")
    );
}

#[test]
fn duplicate_moved_line() {
    let event = PhotisoEvent::DuplicateMoved {
        from: String::from("/in/b.jpg"),
        to: String::from("/dups/2021/05/cafe.jpg"),
    };
    assert_eq!(
        on_photiso_event(&event, &config()),
        text("    Moved: (unorganized)/\"b.jpg\" -> (duplicates)/\"2021/05/cafe.jpg\"")
    );
}

#[test]
fn no_op_line() {
    let event = PhotisoEvent::NoOp { file: String::from("/out/2021/05/a.jpg") };
    assert_eq!(on_photiso_event(&event, &config()), text("    No-op: (organized)/\"2021/05/a.jpg\""));
}

#[test]
fn skipped_line() {
    let event = PhotisoEvent::Skipped {
        file: String::from("/in/vacation!2020.jpg"),
        reason: SkipReason::ExemptionMarker,
    };
    assert_eq!(
        on_photiso_event(&event, &config()),
        text("    Skipped - contains exemption marker: (unorganized)/\"vacation!2020.jpg\"")
    );
    let event = PhotisoEvent::Skipped { file: String::from("/in/notes.txt"), reason: SkipReason::NotAPhoto };
    assert_eq!(
        on_photiso_event(&event, &config()),
        text("    Skipped - not a recognized photo type: (unorganized)/\"notes.txt\"")
    );
}

#[test]
fn error_line() {
    let event = PhotisoEvent::FileError {
        file: String::from("/in/a.jpg"),
        error: PhotisoError::Move(String::from("disk full")),
    };
    assert_eq!(
        on_photiso_event(&event, &config()),
        text("    Error - disk full: (unorganized)/\"a.jpg\"")
    );
}

#[test]
fn closing_events_have_no_line() {
    let event = PhotisoEvent::DirFinished { dir: String::from("/in/trip") };
    assert_eq!(on_photiso_event(&event, &config()), None);
    let event = PhotisoEvent::FileFinished { file: String::from("/in/trip/a.jpg") };
    assert_eq!(on_photiso_event(&event, &config()), None);
}

#[test]
fn paths_are_quoted_with_escapes() {
    let event = PhotisoEvent::FileStarted { file: String::from("/in/say \"cheese\".jpg") };
    assert_eq!(
        on_photiso_event(&event, &config()),
        text("  File: (unorganized)/\"say \\\"cheese\\\".jpg\"")
    );
}

#[test]
fn a_path_outside_its_root_is_shown_whole() {
    let event = PhotisoEvent::NoOp { file: String::from("/in/2021/05/x.jpg") };
    assert_eq!(on_photiso_event(&event, &config()), text("    No-op: (organized)/\"/in/2021/05/x.jpg\""));
}

#[test]
fn event_paths_are_relative_to_their_roots() {
    let event = PhotisoEvent::DuplicateMoved {
        from: String::from("/in/deep/b.jpg"),
        to: String::from("/dups/2021/05/cafe.jpg"),
    };
    assert_eq!(
        event_paths(&event, &config()),
        (String::from("deep/b.jpg"), String::from("2021/05/cafe.jpg"))
    );
    let event = PhotisoEvent::FileStarted { file: String::from("/in/deep/b.jpg") };
    assert_eq!(event_paths(&event, &config()), (String::from("deep/b.jpg"), String::new()));
}

#[test]
fn event_line_takes_the_texts_as_they_are() {
    let event = PhotisoEvent::Moved { from: String::from("x"), to: String::from("y") };
    assert_eq!(
        event_line(&event, "<from>", "<to>"),
        text("    Moved: (unorganized)/<from> -> (organized)/<to>")
    );
    let event = PhotisoEvent::DirStarted { dir: String::from("x") };
    assert_eq!(event_line(&event, "<dir>", "unused"), text("Dir: (unorganized)/<dir>"));
}

#[test]
fn doubled_separators_after_the_root_are_dropped() {
    let event = PhotisoEvent::FileStarted { file: String::from("/in//trip///a.jpg") };
    assert_eq!(on_photiso_event(&event, &config()), text("  File: (unorganized)/\"trip///a.jpg\""));
}
