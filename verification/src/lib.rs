//! Building blocks of a git implementation, verified with Verus.
//!
//! [`create_dir`] creates a directory together with its missing ancestors on
//! a file system that other processes change at the same time. [`tree`]
//! decodes the entries of a tree object.

pub mod create_dir;
pub mod tree;
