use photiso::config::Config;
use photiso::error::PhotisoError;

#[test]
fn distinct_absolute_roots_are_usable() {
    let config = Config::new(String::from("/in"), String::from("/out"), String::from("/dups"));
    assert_eq!(config.validate(), Ok(()));
    assert_eq!(config.directories.unorganized, "/in");
    assert_eq!(config.directories.organized, "/out");
    assert_eq!(config.directories.duplicates, "/dups");
}

#[test]
fn nested_roots_are_usable() {
    let config = Config::new(String::from("/p"), String::from("/p/organized"), String::from("/p/duplicates"));
    assert_eq!(config.validate(), Ok(()));
}

#[test]
fn a_relative_root_is_refused() {
    for (a, b, c) in [("in", "/out", "/dups"), ("/in", "out", "/dups"), ("/in", "/out", ""), ("", "/out", "/dups")] {
        let config = Config::new(String::from(a), String::from(b), String::from(c));
        assert!(matches!(config.validate(), Err(PhotisoError::Config(_))));
    }
}

#[test]
fn equal_roots_are_refused() {
    for (a, b, c) in [("/x", "/x", "/dups"), ("/x", "/out", "/x"), ("/in", "/x", "/x")] {
        let config = Config::new(String::from(a), String::from(b), String::from(c));
        assert!(matches!(config.validate(), Err(PhotisoError::Config(_))));
    }
}

#[test]
fn roots_that_differ_by_separators_at_the_end_are_refused() {
    for (a, b, c) in [("/x", "/x/", "/dups"), ("/in", "/out//", "/out"), ("/in/", "/out", "/in")] {
        let config = Config::new(String::from(a), String::from(b), String::from(c));
        assert_eq!(
            config.validate(),
            Err(PhotisoError::Config(String::from("two directories are the same")))
        );
    }
    let config = Config::new(String::from("/in/"), String::from("/out/"), String::from("/dups/"));
    assert_eq!(config.validate(), Ok(()));
}

#[test]
fn a_refusal_says_why() {
    let config = Config::new(String::from("in"), String::from("in"), String::from("/dups"));
    assert_eq!(
        config.validate(),
        Err(PhotisoError::Config(String::from("a directory is not absolute")))
    );
}
