//! Decoding tree objects: the list of entries of a directory, each a mode, a
//! file name and the id of an object.
//!
//! An entry is the mode as five or six digits, a space, the file name, a
//! null byte, and twenty bytes of object id. A tree is one entry or more,
//! one after the other, and nothing else.

pub mod entry;
pub mod error;
pub mod grammar;
pub mod laws;
pub mod mode;
pub mod parse;

pub use entry::{Entry, Tree};
pub use grammar::EntryView;
pub use error::Error;
pub use mode::Mode;
pub use parse::{parse, parse_entry};
