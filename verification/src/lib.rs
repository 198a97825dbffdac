//! Core of a disk-space cleaner for wallpaper workshop folders: sizing and
//! ranking the entries of a directory walk, ordering and tallying deletions,
//! reading project manifests and locating the workshop directory.
//!
//! The library never touches the filesystem itself. Callers walk, probe and
//! remove; the functions here decide and compute on what the callers observed.

pub mod file_ops;
pub mod json;
pub mod order;
pub mod probe;
pub mod project;
pub mod scanner;
pub mod steam;
pub mod text;
pub mod walk;
