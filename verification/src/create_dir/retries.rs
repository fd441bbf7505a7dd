//! The retry budget of one creation request.

use vstd::prelude::*;

verus! {

/// How many transient failures of each class one request tolerates.
///
/// A count of 0 or 1 tolerates none: the first failure of that class is
/// permanent.
#[derive(Debug, Clone, Copy, PartialEq, Eq, PartialOrd, Ord, Structural)]
pub struct Retries {
    /// How often to retry if an interrupt happens.
    pub on_interrupt: usize,
    /// How many directories can be created in total. 1 means only the target
    /// directory itself can be created and not a single parent directory.
    /// Retries needed to combat other processes that delete empty directories
    /// count towards it as well.
    pub on_create_directory: usize,
}

impl Retries {
    /// The budget used when the caller names none.
    pub open spec fn standard() -> Retries {
        Retries { on_interrupt: 10, on_create_directory: 100 }
    }
}

impl Default for Retries {
    fn default() -> (r: Self)
        ensures
            r == Retries::standard(),
    {
        Retries { on_interrupt: 10, on_create_directory: 100 }
    }
}

} // verus!
