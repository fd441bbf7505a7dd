//! Creating a directory together with its missing ancestors on a file system
//! that other processes change at the same time.
//!
//! The library holds the decisions: which path is tried next, how an answer
//! of the file system is classified, and when the retry budget is spent. The
//! caller performs each attempt and hands back what the file system answered:
//!
//! 1. [`Iter::pending`] names the directory to try,
//! 2. the caller tries to create it,
//! 3. [`Iter::next`] takes the answer as an [`Attempt`] and yields the
//!    report of the step.
//!
//! [`machine::State::step`] says what each answer does to a request, and
//! [`laws`] holds what follows for whole runs.

pub mod error;
pub mod iter;
pub mod laws;
pub mod machine;
pub mod path;
pub mod retries;

pub use error::{Error, Kind, Outcome};
pub use iter::Iter;
pub use machine::{Attempt, State};
pub use retries::Retries;
