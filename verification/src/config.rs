//! The three directories the organizer works on.

use vstd::prelude::*;
use crate::error::{ErrorView, PhotisoError};
use crate::path::{is_same_directory, same_directory};
use crate::text::chars_of;
use vstd::string::StringExecFns;

verus! {

/// The roots of the three trees.
#[derive(Clone, Debug, PartialEq, Eq)]
pub struct Directories {
    /// The tree that is walked; files that are moved leave it.
    pub unorganized: String,
    /// The tree of photos in their canonical places.
    pub organized: String,
    /// The tree that takes the files whose contents are already organized.
    pub duplicates: String,
}

#[derive(Clone, Debug, PartialEq, Eq)]
pub struct Config {
    pub directories: Directories,
}

/// A `Config` with its paths as sequences of characters.
pub struct ConfigView {
    pub unorganized: Seq<char>,
    pub organized: Seq<char>,
    pub duplicates: Seq<char>,
}

impl View for Config {
    type V = ConfigView;

    open spec fn view(&self) -> ConfigView {
        ConfigView {
            unorganized: self.directories.unorganized@,
            organized: self.directories.organized@,
            duplicates: self.directories.duplicates@,
        }
    }
}

/// Whether `path` starts at the root of the file system.
pub open spec fn is_absolute(path: Seq<char>) -> bool {
    path.len() > 0 && path[0] == '/'
}

impl ConfigView {
    /// Whether the three roots are absolute paths.
    pub open spec fn is_rooted(self) -> bool {
        is_absolute(self.unorganized) && is_absolute(self.organized) && is_absolute(
            self.duplicates,
        )
    }

    /// Whether the three roots are absolute paths, no two of them the same directory.
    pub open spec fn is_usable(self) -> bool {
        &&& self.is_rooted()
        &&& !same_directory(self.unorganized, self.organized)
        &&& !same_directory(self.unorganized, self.duplicates)
        &&& !same_directory(self.organized, self.duplicates)
    }

    /// Why a configuration that is not usable is refused.
    pub open spec fn refusal(self) -> Seq<char> {
        if !self.is_rooted() {
            "a directory is not absolute"@
        } else {
            "two directories are the same"@
        }
    }
}

fn absolute(path: &str) -> (b: bool)
    ensures
        b == is_absolute(path@),
{
    let p = chars_of(path);
    p.len() > 0 && p[0] == '/'
}

impl Config {
    /// A configuration of the three roots.
    pub fn new(unorganized: String, organized: String, duplicates: String) -> (config: Config)
        ensures
            config@.unorganized == unorganized@,
            config@.organized == organized@,
            config@.duplicates == duplicates@,
    {
        Config { directories: Directories { unorganized, organized, duplicates } }
    }

    /// Checks that the roots are absolute and that no two of them are the same
    /// directory, separators at the end aside. That they exist is for the caller to
    /// see.
    pub fn validate(&self) -> (checked: Result<(), PhotisoError>)
        ensures
            match checked {
                Ok(()) => self@.is_usable(),
                Err(e) => !self@.is_usable() && e@ == ErrorView::Config(self@.refusal()),
            },
    {
        let d = &self.directories;
        if !absolute(d.unorganized.as_str()) || !absolute(d.organized.as_str()) || !absolute(
            d.duplicates.as_str(),
        ) {
            return Err(PhotisoError::Config(String::from_str("a directory is not absolute")));
        }
        if is_same_directory(d.unorganized.as_str(), d.organized.as_str()) || is_same_directory(
            d.unorganized.as_str(),
            d.duplicates.as_str(),
        ) || is_same_directory(d.organized.as_str(), d.duplicates.as_str()) {
            return Err(PhotisoError::Config(String::from_str("two directories are the same")));
        }
        Ok(())
    }
}

} // verus!
