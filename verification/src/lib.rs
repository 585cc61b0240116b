//! Line and character statistics over a directory tree.
//!
//! A directory tree is handed in as a value: directories with their
//! listings, files with their lines. The walk goes through it depth-first,
//! reads every file whose extension is asked for, counts its non-blank lines
//! and the characters that they keep when trimmed, and adds both to the
//! grand totals and to the totals of the file's extension. What cannot be
//! read counts nothing and is reported; the walk goes on.
//!
//! - [`config`]: what a run is asked to do, read from its arguments.
//! - [`tree`]: directories, files and lines, and what the contracts see of them.
//! - [`text`]: whitespace and trimming.
//! - [`count`]: counts that say so when they no longer fit.
//! - [`totals`]: what a tree adds up to.
//! - [`report`]: what the walk says while it goes.
//! - [`counter`]: the totals of each extension.
//! - [`reader`]: the statistics of one file.
//! - [`walker`]: the walk itself.
//! - [`laws`]: what holds of the totals, whatever the tree.

pub mod config;
pub mod count;
pub mod counter;
pub mod laws;
pub mod reader;
pub mod report;
pub mod text;
pub mod totals;
pub mod tree;
pub mod walker;
