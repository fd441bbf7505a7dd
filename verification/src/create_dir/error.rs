//! What one step of a creation request reports.

use vstd::prelude::*;

verus! {

/// The classes of failure that a creation request tells apart.
#[derive(Debug, Clone, Copy, PartialEq, Eq, Hash, Structural)]
pub enum Kind {
    /// Something that is no directory occupies the name.
    AlreadyExists,
    /// A component above the directory is missing.
    NotFound,
    /// A signal interrupted the attempt.
    Interrupted,
    /// The directory has no parent although the file system asked for one.
    InvalidInput,
    /// A failure of no class that the request knows how to recover from.
    Other,
}

/// A failed step, for the moment or for good.
#[derive(Debug, PartialEq, Eq)]
pub enum Error {
    /// The request goes on by itself: the caller keeps driving it.
    Intermediate(Kind),
    /// The request is over and the target directory was not created.
    Permanent {
        /// The class of the failure that ended the request.
        err: Kind,
        /// The directory that could not be created.
        dir: String,
        /// How many attempts the budget allowed, where a budget ran out.
        attempts: Option<usize>,
    },
}

/// A step's report with each path taken as the text it holds.
pub enum Outcome {
    /// The directory exists now.
    Created(Seq<char>),
    /// A failure that the request recovers from by itself.
    Intermediate(Kind),
    /// The failure that ended the request.
    Permanent { err: Kind, dir: Seq<char>, attempts: Option<usize> },
}

impl Outcome {
    /// Whether the report ends the request.
    pub open spec fn is_permanent(self) -> bool {
        self is Permanent
    }
}

impl View for Error {
    type V = Outcome;

    open spec fn view(&self) -> Outcome {
        match *self {
            Error::Intermediate(kind) => Outcome::Intermediate(kind),
            Error::Permanent { err, dir, attempts } => Outcome::Permanent {
                err,
                dir: dir@,
                attempts,
            },
        }
    }
}

impl Error {
    /// The class of a failure that the request recovers from, and `None` for
    /// one that ended it.
    pub fn intermediate(&self) -> (kind: Option<Kind>)
        ensures
            kind == match self@ {
                Outcome::Intermediate(k) => Some(k),
                _ => None,
            },
    {
        match self {
            Error::Intermediate(kind) => Some(*kind),
            _ => None,
        }
    }
}

/// What a step hands to the caller, as the model sees it: nothing once the
/// request is over, else the report.
pub open spec fn yielded(out: Option<Result<&str, Error>>) -> Option<Outcome> {
    match out {
        None => None,
        Some(Ok(dir)) => Some(Outcome::Created(dir@)),
        Some(Err(e)) => Some(e@),
    }
}

} // verus!
