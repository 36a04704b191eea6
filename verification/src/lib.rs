//! Recursive cleaner for build trees: walks a directory tree, prunes
//! hidden directories, symlinks and platform bundle directories, selects
//! the child directories that look like buildable projects (a manifest
//! file, and a build-output directory when the mode asks for one), and
//! models the outcome of running the external clean command on each.
//!
//! The library works on plain metadata values (names, flags, component
//! paths); the surrounding program does the filesystem listing and the
//! process spawning and feeds the results in.

pub mod config;
pub mod entry;
pub mod select;
pub mod walk;
pub mod outcome;
