//! The failures of decoding a tree.

use vstd::prelude::*;

verus! {

/// Why bytes are no tree.
#[derive(Debug, Clone, Copy, PartialEq, Eq, Hash, Structural)]
pub enum Error {
    /// Where an entry starts there are not five or six digits and then a
    /// space.
    InvalidMode,
    /// The digits name none of the modes that an entry can have.
    UnknownMode,
    /// The file name is empty or no null byte ends it.
    InvalidFilename,
    /// Fewer than twenty bytes are left for the object id.
    InvalidOid,
}

} // verus!
