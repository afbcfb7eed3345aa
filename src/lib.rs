//! Installs a mod archive into a game directory while recording what it
//! created, and takes such an installation back out again.
//!
//! - `path`: paths as component sequences, with parsing, joining and the
//!   "strictly beneath" test.
//! - `release`: placement choices, the install directory, and the choice of
//!   a release asset for a launcher.
//! - `extract`: the per-entry plan of an extraction and the record it builds.
//! - `rollback`: the clean-up plan for a record under an install root.
//! - `laws`: a model of the filesystem and what a clean-up does to it.

pub mod path;
pub mod release;
pub mod extract;
pub mod rollback;
pub mod laws;
