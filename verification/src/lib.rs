//! Photiso organizes a tree of photo files into a layout by date, sets exact
//! duplicates aside, and never destroys a file.
//!
//! The library decides; its caller acts. It never touches the file system: a directory
//! listing goes in and a plan comes out (`walker`), and for each file the caller is
//! asked for one thing at a time and reports what came of it (`resolver`). What the
//! decisions amount to on a file system that replies truthfully is stated in `world`
//! and proved in `laws`: a second visit changes nothing, no file is ever overwritten,
//! and of two files with the same contents and timestamp one goes to the organized
//! tree and the other to the duplicates tree.
//!
//! - `classifier`: which files are photos, and which are exempt
//! - `timestamp`: the resolved timestamp and its text
//! - `naming`: the place of a photo in the organized and in the duplicates tree
//! - `resolver`: the search for a free place, one decision at a time
//! - `walker`: the order in which a directory is worked through
//! - `event`, `trace`: what is reported, and how it is shown
//! - `config`, `error`, `path`, `text`: what the others are built from

pub mod classifier;
pub mod config;
pub mod error;
pub mod event;
pub mod laws;
pub mod naming;
pub mod path;
pub mod resolver;
pub mod text;
pub mod timestamp;
pub mod trace;
pub mod walker;
pub mod world;
