//! Paths as text.
//!
//! A path is a string whose components are separated by `/`. The file name of a path
//! is its last component, where empty components and `.` do not count; stem and
//! extension are the parts of the file name before and after its last dot. Cutting a
//! base directory off the front of a path is left to the standard library.

use vstd::prelude::*;
use crate::text::{chars_of, extend_chars, string_of};

verus! {

/// The character between the components of a path.
pub open spec fn separator() -> char {
    '/'
}

/// The index of the last `c` in `s`, or -1 where `s` holds none.
pub open spec fn last_index_of(s: Seq<char>, c: char) -> int
    decreases s.len(),
{
    if s.len() == 0 {
        -1
    } else if s.last() == c {
        s.len() - 1
    } else {
        last_index_of(s.drop_last(), c)
    }
}

/// What `last_index_of` finds is an occurrence of `c`, and none comes after it.
pub proof fn lemma_last_index_of(s: Seq<char>, c: char)
    ensures
        -1 <= last_index_of(s, c) < s.len(),
        last_index_of(s, c) >= 0 ==> s[last_index_of(s, c)] == c,
        forall|j: int| last_index_of(s, c) < j < s.len() ==> s[j] != c,
    decreases s.len(),
{
    if s.len() > 0 && s.last() != c {
        let front = s.drop_last();
        lemma_last_index_of(front, c);
        assert forall|j: int| last_index_of(s, c) < j < s.len() implies s[j] != c by {
            if j < front.len() {
                assert(front[j] == s[j]);
            }
        }
    }
}

/// An occurrence of `c` with none after it is the one `last_index_of` finds.
pub proof fn lemma_last_index_is(s: Seq<char>, c: char, i: int)
    requires
        -1 <= i < s.len(),
        i >= 0 ==> s[i] == c,
        forall|j: int| i < j < s.len() ==> s[j] != c,
    ensures
        last_index_of(s, c) == i,
{
    lemma_last_index_of(s, c);
}

/// Whether `name` is the current-directory component `.`.
pub open spec fn is_current_name(name: Seq<char>) -> bool {
    name.len() == 1 && name[0] == '.'
}

/// Whether `name` is the parent-directory component `..`.
pub open spec fn is_parent_name(name: Seq<char>) -> bool {
    name.len() == 2 && name[0] == '.' && name[1] == '.'
}

/// The file name of `path`: its last component, where empty components and `.` do
/// not count, so that separators and `/.` at the end are passed over. There is none
/// where no component is left, or where the last one is `..`.
pub open spec fn file_name_of(path: Seq<char>) -> Option<Seq<char>>
    decreases path.len(),
{
    let slash = last_index_of(path, separator());
    let last = path.skip(slash + 1);
    if last.len() == 0 || is_current_name(last) {
        if 0 <= slash < path.len() {
            file_name_of(path.take(slash))
        } else {
            None
        }
    } else if is_parent_name(last) {
        None
    } else {
        Some(last)
    }
}

/// The extension of `path`: what follows the last dot of its file name. There is none
/// where there is no file name, where the file name has no dot, and where it starts
/// with its only dot.
pub open spec fn extension_of(path: Seq<char>) -> Option<Seq<char>> {
    match file_name_of(path) {
        None => None,
        Some(name) => {
            let dot = last_index_of(name, '.');
            if dot <= 0 {
                None
            } else {
                Some(name.skip(dot + 1))
            }
        },
    }
}

/// The file name of `path` without its extension. There is none where there is no
/// file name.
pub open spec fn stem_of(path: Seq<char>) -> Option<Seq<char>> {
    match file_name_of(path) {
        None => None,
        Some(name) => {
            let dot = last_index_of(name, '.');
            if dot <= 0 {
                Some(name)
            } else {
                Some(name.take(dot))
            }
        },
    }
}

/// `name` put under the directory `base`: a separator comes between them unless `base`
/// is empty or already ends in one.
pub open spec fn joined(base: Seq<char>, name: Seq<char>) -> Seq<char> {
    if base.len() == 0 || base.last() == separator() {
        base + name
    } else {
        base + seq![separator()] + name
    }
}

/// `path` without the separators at its end.
pub open spec fn without_trailing_separators(path: Seq<char>) -> Seq<char>
    decreases path.len(),
{
    if path.len() > 0 && path.last() == separator() {
        without_trailing_separators(path.drop_last())
    } else {
        path
    }
}

/// Whether two paths name the same directory: they are the same but for separators
/// at their ends.
pub open spec fn same_directory(first: Seq<char>, second: Seq<char>) -> bool {
    without_trailing_separators(first) == without_trailing_separators(second)
}

/// What the standard library's `Path::strip_prefix` makes of `path` and `base`: the
/// rest of `path` below `base`, or nothing where `path` does not lie under `base`.
pub uninterp spec fn stripped(path: Seq<char>, base: Seq<char>) -> Option<Seq<char>>;

/// `path` relative to `base` where it lies under `base`, and `path` itself where not.
pub open spec fn trimmed(path: Seq<char>, base: Seq<char>) -> Seq<char> {
    match stripped(path, base) {
        Some(rest) => rest,
        None => path,
    }
}

/// The base that `try_trim_unc_prefix` cuts off: a single backslash.
pub open spec fn unc_prefix() -> Seq<char> {
    seq!['\\']
}

/// Whether `s` holds neither a dot nor a separator.
pub open spec fn is_plain(s: Seq<char>) -> bool {
    forall|i: int| 0 <= i < s.len() ==> s[i] != '.' && s[i] != separator()
}

/// A file name is not empty and holds no separator.
pub proof fn lemma_file_name(path: Seq<char>)
    requires
        file_name_of(path) is Some,
    ensures
        file_name_of(path)->0.len() > 0,
        forall|i: int|
            0 <= i < file_name_of(path)->0.len() ==> file_name_of(path)->0[i] != separator(),
    decreases path.len(),
{
    let slash = last_index_of(path, separator());
    let last = path.skip(slash + 1);
    lemma_last_index_of(path, separator());
    if last.len() == 0 || is_current_name(last) {
        lemma_file_name(path.take(slash));
    }
}

/// An extension holds neither a dot nor a separator.
pub proof fn lemma_extension_is_plain(path: Seq<char>)
    requires
        extension_of(path) is Some,
    ensures
        is_plain(extension_of(path)->0),
{
    let name = file_name_of(path)->0;
    lemma_file_name(path);
    lemma_last_index_of(name, '.');
}

/// A path that ends in a dot and a plain `ext` that is not empty has the extension
/// `ext`, or none.
pub proof fn lemma_extension_of_dotted(front: Seq<char>, ext: Seq<char>)
    requires
        is_plain(ext),
        ext.len() > 0,
    ensures
        extension_of(front + seq!['.'] + ext) is None || extension_of(front + seq!['.'] + ext)
            == Some(ext),
{
    let path = front + seq!['.'] + ext;
    let slash = last_index_of(path, separator());
    lemma_last_index_of(path, separator());
    assert(path[front.len() as int] == '.');
    assert(forall|i: int| front.len() < i < path.len() ==> path[i] == ext[i - front.len() - 1]);
    assert(slash < front.len());
    let name = path.skip(slash + 1);
    let dot = front.len() - slash - 1;
    assert(name[dot] == '.');
    assert(name[name.len() - 1] == ext[ext.len() - 1]);
    assert(file_name_of(path) == Some(name));
    assert forall|j: int| dot < j < name.len() implies name[j] != '.' by {
        assert(name[j] == ext[j - dot - 1]);
    }
    lemma_last_index_is(name, '.', dot);
    if dot > 0 {
        assert(name.skip(dot + 1) =~= ext);
    }
}

/// The index of the last `c` among the first `end` characters.
fn find_last(chars: &Vec<char>, c: char, end: usize) -> (found: Option<usize>)
    requires
        end <= chars.len(),
    ensures
        match found {
            Some(i) => last_index_of(chars@.take(end as int), c) == i && i < end,
            None => last_index_of(chars@.take(end as int), c) == -1,
        },
{
    let mut i: usize = end;
    while i > 0
        invariant
            i <= end <= chars.len(),
            last_index_of(chars@.take(end as int), c) == last_index_of(chars@.take(i as int), c),
        decreases i,
    {
        if chars[i - 1] == c {
            assert(chars@.take(i as int).last() == c);
            return Some(i - 1);
        }
        assert(chars@.take(i as int).drop_last() == chars@.take(i - 1));
        i -= 1;
    }
    None
}

fn slice_chars(chars: &Vec<char>, from: usize, to: usize) -> (out: Vec<char>)
    requires
        from <= to <= chars.len(),
    ensures
        out@ == chars@.subrange(from as int, to as int),
{
    let mut out: Vec<char> = Vec::new();
    let mut i: usize = from;
    while i < to
        invariant
            from <= i <= to <= chars.len(),
            out@ == chars@.subrange(from as int, i as int),
        decreases to - i,
    {
        out.push(chars[i]);
        i += 1;
        assert(chars@.subrange(from as int, i as int) == chars@.subrange(from as int, i - 1).push(
            chars@[i - 1],
        ));
    }
    out
}

/// The file name of `path`, as `file_name_of` defines it.
pub fn file_name_chars(path: &Vec<char>) -> (name: Option<Vec<char>>)
    ensures
        match name {
            Some(n) => file_name_of(path@) == Some(n@),
            None => file_name_of(path@) is None,
        },
{
    let mut end: usize = path.len();
    assert(path@.take(end as int) == path@);
    loop
        invariant
            end <= path.len(),
            file_name_of(path@) == file_name_of(path@.take(end as int)),
        decreases end,
    {
        let ghost front = path@.take(end as int);
        let found = find_last(path, '/', end);
        let start: usize = match found {
            Some(i) => i + 1,
            None => 0,
        };
        proof {
            lemma_last_index_of(front, separator());
            assert(front.skip(start as int) == path@.subrange(start as int, end as int));
        }
        let length: usize = end - start;
        if length == 0 || (length == 1 && path[start] == '.') {
            match found {
                Some(i) => {
                    assert(front.take(i as int) == path@.take(i as int));
                    end = i;
                },
                None => {
                    return None;
                },
            }
        } else if length == 2 && path[start] == '.' && path[start + 1] == '.' {
            return None;
        } else {
            return Some(slice_chars(path, start, end));
        }
    }
}

/// The extension of `path`, as `extension_of` defines it.
pub fn extension_chars(path: &Vec<char>) -> (ext: Option<Vec<char>>)
    ensures
        match ext {
            Some(e) => extension_of(path@) == Some(e@),
            None => extension_of(path@) is None,
        },
{
    let name = match file_name_chars(path) {
        Some(n) => n,
        None => {
            return None;
        },
    };
    assert(name@.take(name.len() as int) == name@);
    match find_last(&name, '.', name.len()) {
        Some(dot) => {
            if dot == 0 {
                None
            } else {
                let ext = slice_chars(&name, dot + 1, name.len());
                assert(name@.subrange(dot + 1, name.len() as int) == name@.skip(dot + 1));
                Some(ext)
            }
        },
        None => None,
    }
}

/// The stem of `path`, as `stem_of` defines it.
pub fn stem_chars(path: &Vec<char>) -> (stem: Option<Vec<char>>)
    ensures
        match stem {
            Some(s) => stem_of(path@) == Some(s@),
            None => stem_of(path@) is None,
        },
{
    let name = match file_name_chars(path) {
        Some(n) => n,
        None => {
            return None;
        },
    };
    assert(name@.take(name.len() as int) == name@);
    match find_last(&name, '.', name.len()) {
        Some(dot) => {
            if dot == 0 {
                Some(name)
            } else {
                let stem = slice_chars(&name, 0, dot);
                assert(name@.subrange(0, dot as int) == name@.take(dot as int));
                Some(stem)
            }
        },
        None => Some(name),
    }
}

/// The extension of `path`: the part of its file name after the last dot.
pub fn extension(path: &str) -> (ext: Option<String>)
    ensures
        match ext {
            Some(e) => extension_of(path@) == Some(e@),
            None => extension_of(path@) is None,
        },
{
    match extension_chars(&chars_of(path)) {
        Some(e) => Some(string_of(&e)),
        None => None,
    }
}

/// The file name of `path` without its extension.
pub fn file_stem(path: &str) -> (stem: Option<String>)
    ensures
        match stem {
            Some(s) => stem_of(path@) == Some(s@),
            None => stem_of(path@) is None,
        },
{
    match stem_chars(&chars_of(path)) {
        Some(s) => Some(string_of(&s)),
        None => None,
    }
}

/// Puts `name` under the directory `base`.
pub fn join_chars(base: &Vec<char>, name: &Vec<char>) -> (out: Vec<char>)
    ensures
        out@ == joined(base@, name@),
{
    let mut out: Vec<char> = Vec::new();
    extend_chars(&mut out, base);
    if base.len() > 0 && base[base.len() - 1] != '/' {
        out.push('/');
    }
    extend_chars(&mut out, name);
    proof {
        assert(Seq::<char>::empty() + base@ == base@);
        if base.len() > 0 && base@.last() != separator() {
            assert(base@.push('/') == base@ + seq![separator()]);
        }
    }
    out
}

/// Puts `name` under the directory `base`.
pub fn join(base: &str, name: &str) -> (out: String)
    ensures
        out@ == joined(base@, name@),
{
    string_of(&join_chars(&chars_of(base), &chars_of(name)))
}

fn trim_end(path: &str) -> (out: Vec<char>)
    ensures
        out@ == without_trailing_separators(path@),
{
    let chars = chars_of(path);
    let mut end: usize = chars.len();
    assert(chars@.take(end as int) == chars@);
    while end > 0 && chars[end - 1] == '/'
        invariant
            end <= chars.len(),
            without_trailing_separators(chars@) == without_trailing_separators(
                chars@.take(end as int),
            ),
        decreases end,
    {
        assert(chars@.take(end as int).drop_last() == chars@.take(end - 1));
        end -= 1;
    }
    let out = slice_chars(&chars, 0, end);
    assert(chars@.subrange(0, end as int) == chars@.take(end as int));
    out
}

/// Whether two paths name the same directory.
pub fn is_same_directory(first: &str, second: &str) -> (same: bool)
    ensures
        same == same_directory(first@, second@),
{
    let x = trim_end(first);
    let y = trim_end(second);
    if x.len() != y.len() {
        return false;
    }
    let mut i: usize = 0;
    while i < x.len()
        invariant
            i <= x.len(),
            x.len() == y.len(),
            x@ == without_trailing_separators(first@),
            y@ == without_trailing_separators(second@),
            forall|j: int| 0 <= j < i ==> x@[j] == y@[j],
        decreases x.len() - i,
    {
        if x[i] != y[i] {
            assert(x@[i as int] != y@[i as int]);
            return false;
        }
        i += 1;
    }
    assert(x@ =~= y@);
    true
}

/// Calls `Path::strip_prefix` of the standard library on the two paths. What comes
/// back is given the name `stripped`; its contents are not stated.
#[verifier::external_body]
fn strip_prefix(path: &str, base: &str) -> (rest: Option<String>)
    ensures
        match rest {
            Some(r) => stripped(path@, base@) == Some(r@),
            None => stripped(path@, base@) is None,
        },
{
    match std::path::Path::new(path).strip_prefix(base) {
        Ok(rest) => rest.to_str().map(String::from),
        Err(_) => None,
    }
}

/// `rest` where there is one, and else `path`: what is shown of a path of which `rest`
/// is what lies below a base.
pub fn rest_or_whole(path: &str, rest: Option<String>) -> (out: String)
    ensures
        out@ == match rest {
            Some(r) => r@,
            None => path@,
        },
{
    match rest {
        Some(r) => r,
        None => string_of(&chars_of(path)),
    }
}

/// Cuts the directory `base` off the front of `path`. Where `path` does not lie under
/// `base`, it comes back unchanged.
pub fn try_trim_prefix(path: &str, base: &str) -> (out: String)
    ensures
        out@ == trimmed(path@, base@),
{
    rest_or_whole(path, strip_prefix(path, base))
}

/// Cuts a leading backslash component off `path`; a path without one comes back
/// unchanged.
pub fn try_trim_unc_prefix(path: &str) -> (out: String)
    ensures
        out@ == trimmed(path@, unc_prefix()),
{
    let mut base = String::new();
    base.push('\\');
    assert(base@ =~= unc_prefix());
    try_trim_prefix(path, base.as_str())
}

} // verus!
