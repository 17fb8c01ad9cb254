use photiso::path::{
    extension, file_stem, is_same_directory, join, rest_or_whole, try_trim_prefix,
    try_trim_unc_prefix,
};
use std::path::{Path, PathBuf};

#[test]
fn extension_follows_the_last_dot_of_the_file_name() {
    assert_eq!(extension("/a/b/photo.JPG"), Some(String::from("JPG")));
    assert_eq!(extension("archive.tar.gz"), Some(String::from("gz")));
    assert_eq!(extension("/a.b/photo.png"), Some(String::from("png")));
    assert_eq!(extension("photo."), Some(String::new()));
}

#[test]
fn some_names_have_no_extension() {
    assert_eq!(extension("/a/b/photo"), None);
    assert_eq!(extension("/a/b/.hidden"), None);
    assert_eq!(extension("/a.b/photo"), None);
    assert_eq!(extension(".."), None);
    assert_eq!(extension("/a/.."), None);
    assert_eq!(extension(""), None);
    assert_eq!(extension("/"), None);
    assert_eq!(extension("."), None);
}

#[test]
fn stem_is_the_file_name_without_extension() {
    assert_eq!(file_stem("/a/b/photo.JPG"), Some(String::from("photo")));
    assert_eq!(file_stem("archive.tar.gz"), Some(String::from("archive.tar")));
    assert_eq!(file_stem("/a/b/photo"), Some(String::from("photo")));
    assert_eq!(file_stem("/a/b/.hidden"), Some(String::from(".hidden")));
    assert_eq!(file_stem("photo."), Some(String::from("photo")));
}

#[test]
fn some_paths_have_no_stem() {
    assert_eq!(file_stem(""), None);
    assert_eq!(file_stem("/"), None);
    assert_eq!(file_stem("a/.."), None);
    assert_eq!(file_stem(".."), None);
}

#[test]
fn join_puts_one_separator_between() {
    assert_eq!(join("/photos", "2021"), "/photos/2021");
    assert_eq!(join("/photos/", "2021"), "/photos/2021");
    assert_eq!(join("", "2021"), "2021");
    assert_eq!(join("/", "2021"), "/2021");
    assert_eq!(join("/photos", ""), "/photos/");
}

#[test]
fn trim_cuts_the_base_at_a_component_boundary() {
    assert_eq!(try_trim_prefix("/in/trip/a.jpg", "/in"), "trip/a.jpg");
    assert_eq!(try_trim_prefix("/in/trip/a.jpg", "/in/"), "trip/a.jpg");
    assert_eq!(try_trim_prefix("/in", "/in"), "");
    assert_eq!(try_trim_prefix("/in/a.jpg", ""), "/in/a.jpg");
}

#[test]
fn trim_leaves_a_path_outside_the_base() {
    assert_eq!(try_trim_prefix("/input/a.jpg", "/in"), "/input/a.jpg");
    assert_eq!(try_trim_prefix("/out/a.jpg", "/in"), "/out/a.jpg");
    assert_eq!(try_trim_prefix("/i", "/in"), "/i");
}

#[test]
fn unc_trim_cuts_a_leading_backslash_component() {
    assert_eq!(try_trim_unc_prefix("\\/server/share"), "server/share");
    assert_eq!(try_trim_unc_prefix("\\"), "");
    assert_eq!(try_trim_unc_prefix("\\server"), "\\server");
    assert_eq!(try_trim_unc_prefix("/in/a.jpg"), "/in/a.jpg");
}

#[test]
fn separators_and_dots_at_the_end_are_passed_over() {
    assert_eq!(extension("/a/b.jpg/"), Some(String::from("jpg")));
    assert_eq!(extension("/a/b.jpg//"), Some(String::from("jpg")));
    assert_eq!(extension("/a/b.jpg/."), Some(String::from("jpg")));
    assert_eq!(extension("/a/b.jpg/./"), Some(String::from("jpg")));
    assert_eq!(file_stem("/a/b/"), Some(String::from("b")));
    assert_eq!(file_stem("/a/b.jpg/./."), Some(String::from("b")));
    assert_eq!(file_stem("./a"), Some(String::from("a")));
}

fn samples() -> Vec<String> {
    let pieces = ["", "a", "b.jpg", ".", "..", ".h", "x.", "a.b.c", "\u{e9}.\u{c9}", "..x", "a b"];
    let mut out = Vec::new();
    for first in pieces {
        for second in pieces {
            for third in pieces {
                for lead in ["", "/"] {
                    for tail in ["", "/", "//", "/.", "/./"] {
                        out.push(format!("{}{}/{}/{}{}", lead, first, second, third, tail));
                        out.push(format!("{}{}//{}{}", lead, first, third, tail));
                        out.push(format!("{}{}{}", lead, third, tail));
                    }
                }
            }
        }
    }
    out
}

#[test]
fn extension_and_stem_agree_with_the_standard_library() {
    for path in samples() {
        let std_extension = Path::new(&path).extension().map(|e| e.to_str().unwrap().to_string());
        let std_stem = Path::new(&path).file_stem().map(|e| e.to_str().unwrap().to_string());
        assert_eq!(extension(&path), std_extension, "{:?}", path);
        assert_eq!(file_stem(&path), std_stem, "{:?}", path);
    }
}

#[test]
fn trim_agrees_with_the_standard_library() {
    let bases = ["", "/", "/u", "/u/", "/u//", "/u/.", "u", "/u/a", "/ua", "a/b.jpg", "."];
    for path in samples().iter().take(2000).map(|p| format!("/u{}", p)).chain(samples()) {
        for base in bases {
            let expected = match Path::new(&path).strip_prefix(base) {
                Ok(rest) => rest.to_str().unwrap().to_string(),
                Err(_) => path.clone(),
            };
            assert_eq!(try_trim_prefix(&path, base), expected, "{:?} {:?}", path, base);
        }
    }
}

#[test]
fn trim_drops_every_separator_after_the_base() {
    assert_eq!(try_trim_prefix("/u//a", "/u"), "a");
    assert_eq!(try_trim_prefix("/u///a/b", "/u/"), "a/b");
    assert_eq!(try_trim_prefix("/u/./a", "/u"), "a");
}

#[test]
fn the_rest_is_shown_where_there_is_one() {
    assert_eq!(rest_or_whole("/in/a.jpg", Some(String::from("a.jpg"))), "a.jpg");
    assert_eq!(rest_or_whole("/in/a.jpg", Some(String::new())), "");
    assert_eq!(rest_or_whole("/in/a.jpg", None), "/in/a.jpg");
}

#[test]
fn directories_are_the_same_but_for_separators_at_the_end() {
    assert!(is_same_directory("/a", "/a"));
    assert!(is_same_directory("/a", "/a/"));
    assert!(is_same_directory("/a//", "/a"));
    assert!(is_same_directory("/", ""));
    assert!(!is_same_directory("/a", "/b"));
    assert!(!is_same_directory("/a", "/a/b"));
    assert!(!is_same_directory("/a", "a"));
}

#[test]
fn join_agrees_with_push_for_names_that_are_not_absolute() {
    let bases = ["", "/", "/photos", "/photos/", "photos", "a/b//", "."];
    let names = ["2021", "05", "a.jpg", "2021-05-01 10-00-00-000000000 001.jpg", "", "x/y", "-0001"];
    for base in bases {
        for name in names {
            let mut pushed = PathBuf::from(base);
            pushed.push(name);
            assert_eq!(join(base, name), pushed.to_str().unwrap(), "{:?} {:?}", base, name);
        }
    }
}
