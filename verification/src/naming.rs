//! Where a photo belongs.
//!
//! The place of a photo in the organized tree follows from its timestamp, its extension
//! and a conflict index alone; its place in the duplicates tree from those and the
//! digest of its contents. Both are `{root}/{YYYY}/{MM}/{name}.{extension}`, the
//! extension in small letters.

use vstd::prelude::*;
use crate::config::Config;
use crate::error::{ErrorView, PhotisoError};
use crate::path::{
    extension,
    extension_of,
    is_plain,
    join_chars,
    joined,
    lemma_extension_of_dotted,
    separator,
};
use crate::text::{
    chars_of,
    extend_chars,
    is_ascii_text,
    lemma_zero_padded_injective,
    lower,
    lowercase,
    lowered,
    string_of,
    zero_padded,
    zero_padded_chars,
};
use crate::timestamp::{field_text, is_field_letter, is_pattern, rendered, Timestamp};

verus! {

/// The time of day of `ts` as it stands in a name: `HH-MM-SS-fffffffff`.
pub open spec fn time_text(ts: Timestamp) -> Seq<char> {
    field_text('H', ts) + (seq!['-'] + (field_text('M', ts) + (seq!['-'] + (field_text('S', ts)
        + (seq!['-'] + field_text('f', ts))))))
}

/// The name a timestamp gives a file: `YYYY-MM-DD HH-MM-SS-fffffffff`.
pub open spec fn stamp_text(ts: Timestamp) -> Seq<char> {
    field_text('Y', ts) + (seq!['-'] + (field_text('m', ts) + (seq!['-'] + (field_text('d', ts)
        + (seq![' '] + time_text(ts))))))
}

/// What a conflict index adds to a name: nothing for 0, else `mark` and the index in
/// at least three digits.
pub open spec fn conflict_suffix(mark: char, conflict: nat) -> Seq<char> {
    if conflict > 0 {
        seq![mark] + zero_padded(conflict, 3)
    } else {
        Seq::empty()
    }
}

/// The directory of the month of `ts` under `root`: `{root}/{YYYY}/{MM}`.
pub open spec fn month_directory(root: Seq<char>, ts: Timestamp) -> Seq<char> {
    joined(joined(root, field_text('Y', ts)), field_text('m', ts))
}

/// `{root}/{YYYY}/{MM}/{stem}{mark}{NNN}.{small}`, the conflict part left out for
/// index 0; `small` is the extension, already in small letters.
pub open spec fn destination(
    root: Seq<char>,
    stem: Seq<char>,
    mark: char,
    small: Seq<char>,
    ts: Timestamp,
    conflict: nat,
) -> Seq<char> {
    joined(month_directory(root, ts), stem + conflict_suffix(mark, conflict) + seq!['.'] + small)
}

/// The place in the organized tree of a photo with the given extension, timestamp and
/// conflict index: `{root}/{YYYY}/{MM}/{YYYY-MM-DD HH-MM-SS-fffffffff}{ NNN}.{ext}`,
/// the extension in small letters.
pub open spec fn organized_path(
    root: Seq<char>,
    extension: Seq<char>,
    ts: Timestamp,
    conflict: nat,
) -> Seq<char> {
    destination(root, stamp_text(ts), ' ', lowered(extension), ts, conflict)
}

/// The place in the duplicates tree of a photo with the given extension, timestamp,
/// digest and conflict index: `{root}/{YYYY}/{MM}/{digest}{.NNN}.{ext}`, the extension
/// in small letters.
pub open spec fn duplicates_path(
    root: Seq<char>,
    extension: Seq<char>,
    ts: Timestamp,
    digest: Seq<char>,
    conflict: nat,
) -> Seq<char> {
    destination(root, digest, '.', lowered(extension), ts, conflict)
}

/// The pattern of the name a timestamp gives a file.
pub open spec fn stamp_pattern() -> Seq<char> {
    seq![
        '%',
        'Y',
        '-',
        '%',
        'm',
        '-',
        '%',
        'd',
        ' ',
        '%',
        'H',
        '-',
        '%',
        'M',
        '-',
        '%',
        'S',
        '-',
        '%',
        'f',
    ]
}

/// A pattern that starts with a field renders as the text of the field, followed by
/// what the rest renders as.
proof fn lemma_field_first(letter: char, rest: Seq<char>, ts: Timestamp)
    requires
        is_field_letter(letter),
        is_pattern(rest),
    ensures
        is_pattern(seq!['%', letter] + rest),
        rendered(seq!['%', letter] + rest, ts) == field_text(letter, ts) + rendered(rest, ts),
{
    let pattern = seq!['%', letter] + rest;
    assert(pattern.skip(2) =~= rest);
    assert(pattern[0] == '%' && pattern[1] == letter);
}

/// A pattern that starts with a plain character renders as that character, followed
/// by what the rest renders as.
proof fn lemma_plain_first(c: char, rest: Seq<char>, ts: Timestamp)
    requires
        c != '%',
        is_pattern(rest),
    ensures
        is_pattern(seq![c] + rest),
        rendered(seq![c] + rest, ts) == seq![c] + rendered(rest, ts),
{
    let pattern = seq![c] + rest;
    assert(pattern.skip(1) =~= rest);
    assert(pattern[0] == c);
}

/// A pattern of one field renders as the text of the field.
proof fn lemma_field_pattern(letter: char, ts: Timestamp)
    requires
        is_field_letter(letter),
    ensures
        is_pattern(seq!['%', letter]),
        rendered(seq!['%', letter], ts) == field_text(letter, ts),
{
    let end = Seq::<char>::empty();
    lemma_field_first(letter, end, ts);
    assert(seq!['%', letter] + end =~= seq!['%', letter]);
    assert(field_text(letter, ts) + rendered(end, ts) =~= field_text(letter, ts));
}

proof fn lemma_stamp_pattern(ts: Timestamp)
    ensures
        is_pattern(stamp_pattern()),
        rendered(stamp_pattern(), ts) == stamp_text(ts),
{
    let tail12 = seq!['%', 'f'];
    lemma_field_pattern('f', ts);
    let tail11 = seq!['-'] + tail12;
    lemma_plain_first('-', tail12, ts);
    let tail10 = seq!['%', 'S'] + tail11;
    lemma_field_first('S', tail11, ts);
    let tail9 = seq!['-'] + tail10;
    lemma_plain_first('-', tail10, ts);
    let tail8 = seq!['%', 'M'] + tail9;
    lemma_field_first('M', tail9, ts);
    let tail7 = seq!['-'] + tail8;
    lemma_plain_first('-', tail8, ts);
    let tail6 = seq!['%', 'H'] + tail7;
    lemma_field_first('H', tail7, ts);
    let tail5 = seq![' '] + tail6;
    lemma_plain_first(' ', tail6, ts);
    let tail4 = seq!['%', 'd'] + tail5;
    lemma_field_first('d', tail5, ts);
    let tail3 = seq!['-'] + tail4;
    lemma_plain_first('-', tail4, ts);
    let tail2 = seq!['%', 'm'] + tail3;
    lemma_field_first('m', tail3, ts);
    let tail1 = seq!['-'] + tail2;
    lemma_plain_first('-', tail2, ts);
    let tail0 = seq!['%', 'Y'] + tail1;
    lemma_field_first('Y', tail1, ts);
    assert(rendered(tail0, ts) == stamp_text(ts));
    assert(tail0 =~= stamp_pattern());
}

/// The directory of the month of `date_time` under `root`, where the timestamp is
/// valid.
fn month_directory_chars(root: &str, date_time: &Timestamp) -> (dir: Option<Vec<char>>)
    ensures
        dir is Some <==> date_time.is_valid(),
        dir matches Some(d) ==> d@ == month_directory(root@, *date_time),
{
    proof {
        reveal_strlit("%Y");
        reveal_strlit("%m");
        assert("%Y"@ =~= seq!['%', 'Y']);
        assert("%m"@ =~= seq!['%', 'm']);
        lemma_field_pattern('Y', *date_time);
        lemma_field_pattern('m', *date_time);
    }
    let year = date_time.format("%Y")?;
    let month = date_time.format("%m")?;
    let with_year = join_chars(&chars_of(root), &chars_of(year.as_str()));
    Some(join_chars(&with_year, &chars_of(month.as_str())))
}

/// The file name `{stem}{suffix}.{small}` under `dir`.
fn destination_chars(
    dir: &Vec<char>,
    stem: &Vec<char>,
    mark: char,
    small: &Vec<char>,
    conflict: u32,
) -> (out: Vec<char>)
    ensures
        out@ == joined(dir@, stem@ + conflict_suffix(mark, conflict as nat) + seq!['.'] + small@),
{
    let mut name: Vec<char> = Vec::new();
    extend_chars(&mut name, stem);
    if conflict > 0 {
        name.push(mark);
        extend_chars(&mut name, &zero_padded_chars(conflict, 3));
    }
    name.push('.');
    extend_chars(&mut name, small);
    proof {
        let suffix = conflict_suffix(mark, conflict as nat);
        assert(name@ =~= stem@ + suffix + seq!['.'] + small@);
    }
    join_chars(dir, &name)
}

/// The place in the organized tree for the extension `small`, which is taken as it
/// is, the timestamp `date_time` and the conflict index `conflict`. There is none for
/// a timestamp that names no moment.
pub fn organized_destination(
    small: &str,
    date_time: &Timestamp,
    conflict: u32,
    config: &Config,
) -> (place: Result<String, PhotisoError>)
    ensures
        match place {
            Ok(path) => date_time.is_valid() && path@ == destination(
                config@.organized,
                stamp_text(*date_time),
                ' ',
                small@,
                *date_time,
                conflict as nat,
            ),
            Err(e) => !date_time.is_valid() && e@ == ErrorView::InvalidTimestamp,
        },
{
    let dir = match month_directory_chars(config.directories.organized.as_str(), date_time) {
        Some(d) => d,
        None => {
            return Err(PhotisoError::InvalidTimestamp);
        },
    };
    proof {
        reveal_strlit("%Y-%m-%d %H-%M-%S-%f");
        assert("%Y-%m-%d %H-%M-%S-%f"@ =~= stamp_pattern());
        lemma_stamp_pattern(*date_time);
    }
    let stamp = match date_time.format("%Y-%m-%d %H-%M-%S-%f") {
        Some(s) => s,
        None => {
            return Err(PhotisoError::InvalidTimestamp);
        },
    };
    let path = destination_chars(&dir, &chars_of(stamp.as_str()), ' ', &chars_of(small), conflict);
    Ok(string_of(&path))
}

/// The place in the duplicates tree for the extension `small`, which is taken as it
/// is, the timestamp `date_time`, the digest `hash` and the conflict index `conflict`.
/// There is none for a timestamp that names no moment.
pub fn duplicates_destination(
    small: &str,
    date_time: &Timestamp,
    hash: &str,
    conflict: u32,
    config: &Config,
) -> (place: Result<String, PhotisoError>)
    ensures
        match place {
            Ok(path) => date_time.is_valid() && path@ == destination(
                config@.duplicates,
                hash@,
                '.',
                small@,
                *date_time,
                conflict as nat,
            ),
            Err(e) => !date_time.is_valid() && e@ == ErrorView::InvalidTimestamp,
        },
{
    let dir = match month_directory_chars(config.directories.duplicates.as_str(), date_time) {
        Some(d) => d,
        None => {
            return Err(PhotisoError::InvalidTimestamp);
        },
    };
    let path = destination_chars(&dir, &chars_of(hash), '.', &chars_of(small), conflict);
    Ok(string_of(&path))
}

/// The place in the organized tree of the photo at `file_path` with the timestamp
/// `date_time`, for the conflict index `conflict`.
///
/// Only the extension of `file_path` enters the result, in small letters. There is no
/// place for a path without an extension, nor for a timestamp that names no moment.
pub fn get_photo_destination_path(
    file_path: &str,
    date_time: &Timestamp,
    conflict: u32,
    config: &Config,
) -> (place: Result<String, PhotisoError>)
    ensures
        match place {
            Ok(path) => extension_of(file_path@) is Some && date_time.is_valid() && path@
                == organized_path(
                config@.organized,
                extension_of(file_path@)->0,
                *date_time,
                conflict as nat,
            ),
            Err(e) => if extension_of(file_path@) is None {
                e@ == ErrorView::NoExtension
            } else {
                !date_time.is_valid() && e@ == ErrorView::InvalidTimestamp
            },
        },
{
    match extension(file_path) {
        Some(found) => organized_destination(
            lowercase(found.as_str()).as_str(),
            date_time,
            conflict,
            config,
        ),
        None => Err(PhotisoError::NoExtension),
    }
}

/// The place in the duplicates tree of the photo at `file_path` with the timestamp
/// `date_time` and the digest `hash`, for the conflict index `conflict`.
///
/// Only the extension of `file_path` enters the result, in small letters. There is no
/// place for a path without an extension, nor for a timestamp that names no moment.
pub fn get_photo_duplicates_path(
    file_path: &str,
    date_time: &Timestamp,
    hash: &str,
    conflict: u32,
    config: &Config,
) -> (place: Result<String, PhotisoError>)
    ensures
        match place {
            Ok(path) => extension_of(file_path@) is Some && date_time.is_valid() && path@
                == duplicates_path(
                config@.duplicates,
                extension_of(file_path@)->0,
                *date_time,
                hash@,
                conflict as nat,
            ),
            Err(e) => if extension_of(file_path@) is None {
                e@ == ErrorView::NoExtension
            } else {
                !date_time.is_valid() && e@ == ErrorView::InvalidTimestamp
            },
        },
{
    match extension(file_path) {
        Some(found) => duplicates_destination(
            lowercase(found.as_str()).as_str(),
            date_time,
            hash,
            conflict,
            config,
        ),
        None => Err(PhotisoError::NoExtension),
    }
}

/// Only the small letters of the extension enter a place: two extensions that are the
/// same in small letters give the same places.
pub proof fn lemma_case_is_irrelevant(
    root: Seq<char>,
    first: Seq<char>,
    second: Seq<char>,
    ts: Timestamp,
    digest: Seq<char>,
    conflict: nat,
)
    requires
        lowered(first) == lowered(second),
    ensures
        organized_path(root, first, ts, conflict) == organized_path(root, second, ts, conflict),
        duplicates_path(root, first, ts, digest, conflict) == duplicates_path(
            root,
            second,
            ts,
            digest,
            conflict,
        ),
{
}

/// Two ASCII extensions that differ in letter case alone are the same in small
/// letters.
pub proof fn lemma_ascii_case_is_irrelevant(first: Seq<char>, second: Seq<char>)
    requires
        is_ascii_text(first),
        is_ascii_text(second),
        lower(first) == lower(second),
    ensures
        lowered(first) == lowered(second),
{
}

/// A file at a place made for a plain extension that is not empty has that extension,
/// or none.
pub proof fn lemma_destination_extension(
    root: Seq<char>,
    stem: Seq<char>,
    mark: char,
    small: Seq<char>,
    ts: Timestamp,
    conflict: nat,
)
    requires
        is_plain(small),
        small.len() > 0,
    ensures
        ({
            let path = destination(root, stem, mark, small, ts, conflict);
            extension_of(path) is None || extension_of(path) == Some(small)
        }),
{
    let dir = month_directory(root, ts);
    let front_name = stem + conflict_suffix(mark, conflict);
    let name = front_name + seq!['.'] + small;
    let path = joined(dir, name);
    let front = if dir.len() == 0 || dir.last() == separator() {
        dir + front_name
    } else {
        dir + seq![separator()] + front_name
    };
    assert(path =~= front + seq!['.'] + small);
    lemma_extension_of_dotted(front, small);
}

/// Each conflict index has a suffix of its own.
pub proof fn lemma_conflict_suffix_injective(mark: char, first: nat, second: nat)
    requires
        conflict_suffix(mark, first) == conflict_suffix(mark, second),
    ensures
        first == second,
{
    if first > 0 && second > 0 {
        let x = seq![mark] + zero_padded(first, 3);
        let y = seq![mark] + zero_padded(second, 3);
        assert(zero_padded(first, 3) =~= x.skip(1));
        assert(zero_padded(second, 3) =~= y.skip(1));
        lemma_zero_padded_injective(first, second, 3);
    } else if first > 0 {
        assert((seq![mark] + zero_padded(first, 3)).len() > 0);
    } else if second > 0 {
        assert((seq![mark] + zero_padded(second, 3)).len() > 0);
    }
}

/// Each conflict index names a place of its own: two indices never give the same
/// place.
pub proof fn lemma_indices_name_distinct_places(
    root: Seq<char>,
    stem: Seq<char>,
    mark: char,
    small: Seq<char>,
    ts: Timestamp,
    first: nat,
    second: nat,
)
    requires
        first != second,
    ensures
        destination(root, stem, mark, small, ts, first) != destination(
            root,
            stem,
            mark,
            small,
            ts,
            second,
        ),
{
    let dir = month_directory(root, ts);
    let front = if dir.len() == 0 || dir.last() == separator() {
        dir + stem
    } else {
        dir + seq![separator()] + stem
    };
    let back = seq!['.'] + small;
    let x = conflict_suffix(mark, first);
    let y = conflict_suffix(mark, second);
    let one = destination(root, stem, mark, small, ts, first);
    let other = destination(root, stem, mark, small, ts, second);
    assert(one =~= front + x + back);
    assert(other =~= front + y + back);
    if one == other {
        assert(x.len() == y.len());
        assert forall|i: int| 0 <= i < x.len() implies x[i] == y[i] by {
            assert(x[i] == one[front.len() + i]);
            assert(y[i] == other[front.len() + i]);
        }
        assert(x =~= y);
        lemma_conflict_suffix_injective(mark, first, second);
    }
}

} // verus!
