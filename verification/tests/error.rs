use photiso::error::PhotisoError;

#[test]
fn collaborator_errors_keep_their_message() {
    assert_eq!(PhotisoError::Config(String::from("c")).message(), "c");
    assert_eq!(PhotisoError::DirectoryList(String::from("d")).message(), "d");
    assert_eq!(PhotisoError::Metadata(String::from("m")).message(), "m");
    assert_eq!(PhotisoError::Hash(String::from("h")).message(), "h");
    assert_eq!(PhotisoError::Move(String::from("v")).message(), "v");
}

#[test]
fn library_errors_have_their_words() {
    assert_eq!(PhotisoError::NoExtension.message(), "the file has no extension");
    assert_eq!(PhotisoError::InvalidTimestamp.message(), "the timestamp names no moment that exists");
    assert_eq!(PhotisoError::ConflictLimit.message(), "every conflict index is taken");
    assert_eq!(PhotisoError::UnexpectedReply.message(), "the reply does not answer the request");
}

#[test]
fn only_configuration_and_listing_errors_end_the_run() {
    assert!(!PhotisoError::Config(String::new()).is_file_scoped());
    assert!(!PhotisoError::DirectoryList(String::new()).is_file_scoped());
    assert!(PhotisoError::Metadata(String::new()).is_file_scoped());
    assert!(PhotisoError::Hash(String::new()).is_file_scoped());
    assert!(PhotisoError::Move(String::new()).is_file_scoped());
    assert!(PhotisoError::NoExtension.is_file_scoped());
    assert!(PhotisoError::InvalidTimestamp.is_file_scoped());
    assert!(PhotisoError::ConflictLimit.is_file_scoped());
    assert!(PhotisoError::UnexpectedReply.is_file_scoped());
}
