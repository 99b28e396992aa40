//! Serialises a directory tree and its file contents into one text artifact,
//! with gitignore-style exclusion rules.
//!
//! - `pattern`: one ignore-file line to one glob, and the laws of that translation;
//! - `ignore_file`: the globs of an ignore file's text;
//! - `exclusion`: the set of excluded paths, and the filter of the walk;
//! - `emit`: the tree section and the nested content section of the artifact;
//! - `text`: moving text between strings and character vectors.

pub mod pattern;
pub mod ignore_file;
pub mod text;
pub mod exclusion;
pub mod emit;
