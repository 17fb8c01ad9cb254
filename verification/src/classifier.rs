//! Which files the organizer handles.
//!
//! A file is a photo where it is a regular file whose extension, letter case aside, is
//! one of a fixed set. A photo whose file stem holds the marker `!` is exempt: it is
//! never moved.

use vstd::prelude::*;
use crate::path::{extension_chars, extension_of, is_plain, separator, stem_chars, stem_of};
use crate::text::{chars_of, is_ascii_text, lower, lower_char, lowered, to_lower};

verus! {

/// The character that marks a file as never to be moved.
pub open spec fn exemption_marker() -> char {
    '!'
}

/// Whether `ext`, already in small letters, is an extension of a supported photo format:
/// bitmap, GIF, JPEG, PNG, TIFF or WMP.
pub open spec fn is_photo_extension(ext: Seq<char>) -> bool {
    ||| ext == seq!['b', 'm', 'p']
    ||| ext == seq!['g', 'i', 'f']
    ||| ext == seq!['j', 'p', 'g']
    ||| ext == seq!['j', 'p', 'e', 'g']
    ||| ext == seq!['p', 'n', 'g']
    ||| ext == seq!['t', 'i', 'f']
    ||| ext == seq!['t', 'i', 'f', 'f']
    ||| ext == seq!['w', 'm', 'p']
}

/// Whether `path` names a photo: it is a regular file, and its extension in small
/// letters is a supported one.
pub open spec fn photo_file(path: Seq<char>, is_regular_file: bool) -> bool {
    is_regular_file && match extension_of(path) {
        Some(ext) => is_photo_extension(lower(ext)),
        None => false,
    }
}

/// Whether the stem of `path` holds the exemption marker.
pub open spec fn exempt(path: Seq<char>) -> bool {
    match stem_of(path) {
        Some(stem) => stem.contains(exemption_marker()),
        None => false,
    }
}

/// Why a file is left where it is.
#[derive(Clone, Copy, Debug, PartialEq, Eq, Structural)]
pub enum SkipReason {
    /// The entry is no regular file with a supported photo extension.
    NotAPhoto,
    /// The file stem holds the exemption marker.
    ExemptionMarker,
}

impl SkipReason {
    /// The reason in words.
    pub open spec fn text(self) -> Seq<char> {
        match self {
            SkipReason::NotAPhoto => "not a recognized photo type"@,
            SkipReason::ExemptionMarker => "contains exemption marker"@,
        }
    }

    /// The reason in words, as it is reported.
    pub fn message(&self) -> (text: &'static str)
        ensures
            text@ == self.text(),
    {
        match self {
            SkipReason::NotAPhoto => "not a recognized photo type",
            SkipReason::ExemptionMarker => "contains exemption marker",
        }
    }
}

fn is_three(ext: &Vec<char>, a: char, b: char, c: char) -> (same: bool)
    ensures
        same == (ext@ == seq![a, b, c]),
{
    if ext.len() == 3 && ext[0] == a && ext[1] == b && ext[2] == c {
        assert(ext@ =~= seq![a, b, c]);
        true
    } else {
        if ext.len() == 3 {
            assert(seq![a, b, c][0] == a && seq![a, b, c][1] == b && seq![a, b, c][2] == c);
        } else {
            assert(seq![a, b, c].len() == 3);
        }
        false
    }
}

fn is_four(ext: &Vec<char>, a: char, b: char, c: char, d: char) -> (same: bool)
    ensures
        same == (ext@ == seq![a, b, c, d]),
{
    if ext.len() == 4 && ext[0] == a && ext[1] == b && ext[2] == c && ext[3] == d {
        assert(ext@ =~= seq![a, b, c, d]);
        true
    } else {
        if ext.len() == 4 {
            assert(seq![a, b, c, d][0] == a && seq![a, b, c, d][1] == b && seq![a, b, c, d][2]
                == c && seq![a, b, c, d][3] == d);
        } else {
            assert(seq![a, b, c, d].len() == 4);
        }
        false
    }
}

/// Whether `ext`, already in small letters, is a supported photo extension.
pub fn is_photo_extension_chars(ext: &Vec<char>) -> (b: bool)
    ensures
        b == is_photo_extension(ext@),
{
    is_three(ext, 'b', 'm', 'p') || is_three(ext, 'g', 'i', 'f') || is_three(ext, 'j', 'p', 'g')
        || is_four(ext, 'j', 'p', 'e', 'g') || is_three(ext, 'p', 'n', 'g') || is_three(
        ext,
        't',
        'i',
        'f',
    ) || is_four(ext, 't', 'i', 'f', 'f') || is_three(ext, 'w', 'm', 'p')
}

/// Whether the entry at `path` is a photo. `is_regular_file` says whether the entry
/// exists as a regular file; the extension decides the rest.
pub fn is_photo_file(path: &str, is_regular_file: bool) -> (b: bool)
    ensures
        b == photo_file(path@, is_regular_file),
{
    if !is_regular_file {
        return false;
    }
    match extension_chars(&chars_of(path)) {
        Some(ext) => is_photo_extension_chars(&to_lower(&ext)),
        None => false,
    }
}

/// Whether the file at `path` is exempt from organizing: its stem holds `!`.
pub fn is_exempt(path: &str) -> (b: bool)
    ensures
        b == exempt(path@),
{
    match stem_chars(&chars_of(path)) {
        Some(stem) => {
            let mut i: usize = 0;
            while i < stem.len()
                invariant
                    i <= stem.len(),
                    stem_of(path@) == Some(stem@),
                    forall|j: int| 0 <= j < i ==> stem@[j] != exemption_marker(),
                decreases stem.len() - i,
            {
                if stem[i] == '!' {
                    assert(stem@[i as int] == exemption_marker());
                    return true;
                }
                i += 1;
            }
            false
        },
        None => false,
    }
}

/// An extension that is a photo extension once its ASCII capitals are made small is
/// ASCII text, and in small letters it is plain, not empty, and stays as it is when
/// made small again.
pub proof fn lemma_photo_extension(ext: Seq<char>)
    requires
        is_photo_extension(lower(ext)),
    ensures
        is_ascii_text(ext),
        lowered(ext) == lower(ext),
        is_plain(lower(ext)),
        lower(ext).len() > 0,
        lowered(lower(ext)) == lower(ext),
{
    let small = lower(ext);
    assert forall|i: int| 0 <= i < ext.len() implies '\0' <= #[trigger] ext[i] <= '\u{7f}' by {
        assert(small[i] == lower_char(ext[i]));
        assert('a' <= small[i] <= 'z');
    }
    assert forall|i: int| 0 <= i < small.len() implies '\0' <= #[trigger] small[i]
        <= '\u{7f}' by {
        assert('a' <= small[i] <= 'z');
    }
    assert forall|i: int| 0 <= i < small.len() implies small[i] != '.' && small[i]
        != separator() by {
        assert('a' <= small[i] <= 'z');
    }
    assert(lower(small) =~= small) by {
        assert forall|i: int| 0 <= i < small.len() implies lower_char(small[i]) == small[i] by {
            assert('a' <= small[i] <= 'z');
        }
    }
}

} // verus!
