use photiso::classifier::{is_exempt, is_photo_file, SkipReason};

#[test]
fn every_supported_extension_is_a_photo() {
    for name in [
        "a.bmp", "a.gif", "a.jpg", "a.jpeg", "a.png", "a.tif", "a.tiff", "a.wmp",
    ] {
        assert!(is_photo_file(name, true), "{}", name);
    }
}

#[test]
fn extension_case_does_not_matter() {
    assert!(is_photo_file("/in/IMG_0001.JPG", true));
    assert!(is_photo_file("/in/scan.Tiff", true));
    assert!(is_photo_file("/in/x.jPeG", true));
}

#[test]
fn other_extensions_are_no_photos() {
    assert!(!is_photo_file("/in/notes.txt", true));
    assert!(!is_photo_file("/in/movie.mp4", true));
    assert!(!is_photo_file("/in/a.jpgx", true));
    assert!(!is_photo_file("/in/a.jp", true));
    assert!(!is_photo_file("/in/a.jpg.bak", true));
}

#[test]
fn a_name_without_extension_is_no_photo() {
    assert!(!is_photo_file("/in/jpg", true));
    assert!(!is_photo_file("/in/.jpg", true));
    assert!(!is_photo_file("/in/photo.", true));
    assert!(!is_photo_file("", true));
    assert!(!is_photo_file("/in.jpg/file", true));
}

#[test]
fn what_is_no_regular_file_is_no_photo() {
    assert!(!is_photo_file("/in/a.jpg", false));
}

#[test]
fn marker_in_the_stem_exempts() {
    assert!(is_exempt("vacation!2020.jpg"));
    assert!(is_exempt("/in/!.png"));
    assert!(is_exempt("/in/keep!"));
}

#[test]
fn marker_elsewhere_does_not_exempt() {
    assert!(!is_exempt("/in/vacation2020.jpg"));
    assert!(!is_exempt("/keep!/a.jpg"));
    assert!(!is_exempt("/in/a.jpg!"));
    assert!(!is_exempt(""));
}

#[test]
fn skip_reasons_have_their_words() {
    assert_eq!(SkipReason::NotAPhoto.message(), "not a recognized photo type");
    assert_eq!(SkipReason::ExemptionMarker.message(), "contains exemption marker");
}

#[test]
fn classification_agrees_with_lower_casing_by_unicode() {
    let known = ["bmp", "gif", "jpg", "jpeg", "png", "tif", "tiff", "wmp"];
    let letters = ["j", "J", "p", "P", "g", "G", "e", "E", "\u{c9}", "\u{e9}", "\u{212a}", "\u{130}", "\u{17f}", "i", "I", "f", "F", "t", "T", "\u{ff2a}"];
    let mut extensions: Vec<String> = known.iter().map(|k| k.to_uppercase()).collect();
    for a in letters {
        for b in letters {
            for c in letters {
                extensions.push(format!("{}{}{}", a, b, c));
                extensions.push(format!("{}{}e{}", a, b, c));
            }
        }
    }
    for extension in extensions {
        let expected = known.contains(&extension.to_lowercase().as_str());
        assert_eq!(is_photo_file(&format!("/in/a.{}", extension), true), expected, "{:?}", extension);
    }
}
