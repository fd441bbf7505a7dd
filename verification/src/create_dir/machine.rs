//! The creation request as a state machine: the state, the answers of the
//! file system, and the step that each answer causes.

use vstd::prelude::*;
use crate::create_dir::error::{Kind, Outcome};
use crate::create_dir::path::{is_chain, path_parent};
use crate::create_dir::retries::Retries;

verus! {

/// What the file system answered to one attempt to create a directory.
#[derive(Debug, Clone, Copy, PartialEq, Eq, Hash, Structural)]
pub enum Attempt {
    /// The directory was created.
    Created,
    /// The name is taken; `is_dir` tells whether a directory holds it.
    AlreadyExists { is_dir: bool },
    /// A component above the directory is missing.
    NotFound,
    /// A signal interrupted the call.
    Interrupted,
    /// Any other failure.
    Other,
}

/// The state of a creation request.
pub struct State {
    /// The paths still to be tried; the last one is tried next.
    pub cursors: Seq<Seq<char>>,
    /// The budget that is left.
    pub retries: Retries,
    /// The budget that the request started with.
    pub original: Retries,
}

impl State {
    /// The state of a fresh request for `target`.
    pub open spec fn start(target: Seq<char>, retries: Retries) -> State {
        State { cursors: seq![target], retries, original: retries }
    }

    /// Whether the request is over: no step reports anything any more.
    pub open spec fn finished(self) -> bool {
        self.cursors.len() == 0
    }

    /// The state after a failure for good: nothing is left to try.
    pub open spec fn stopped(self) -> State {
        State { cursors: Seq::empty(), ..self }
    }

    /// The state with one retry after a missing parent taken off the budget.
    pub open spec fn spend_directory(self) -> State {
        State {
            retries: Retries {
                on_create_directory: (self.retries.on_create_directory - 1) as usize,
                ..self.retries
            },
            ..self
        }
    }

    /// The state with one retry after an interrupt taken off the budget.
    pub open spec fn spend_interrupt(self) -> State {
        State {
            retries: Retries {
                on_interrupt: (self.retries.on_interrupt - 1) as usize,
                ..self.retries
            },
            ..self
        }
    }

    /// The step after a missing parent for which budget was left: `dir` has
    /// been taken off the pending paths and the budget is paid, and `parent`
    /// is what lies above `dir`.
    pub open spec fn missing_parent(self, dir: Seq<char>, parent: Option<Seq<char>>) -> (
        State,
        Outcome,
    ) {
        match parent {
            None => (
                self.stopped(),
                Outcome::Permanent { err: Kind::InvalidInput, dir, attempts: Some(1usize) },
            ),
            Some(above) => (
                State { cursors: self.cursors.push(dir).push(above), ..self },
                Outcome::Intermediate(Kind::NotFound),
            ),
        }
    }

    /// One step of the request on the answer `attempt`: the state after it,
    /// and what it reports. A finished request stays as it is and reports
    /// nothing.
    pub open spec fn step(self, attempt: Attempt) -> (State, Option<Outcome>) {
        if self.finished() {
            (self, None)
        } else {
            let dir = self.cursors.last();
            let popped = State { cursors: self.cursors.drop_last(), ..self };
            let (next, outcome) = match attempt {
                Attempt::Created => (popped, Outcome::Created(dir)),
                Attempt::AlreadyExists { is_dir } => if is_dir {
                    (popped, Outcome::Created(dir))
                } else {
                    (
                        self.stopped(),
                        Outcome::Permanent { err: Kind::AlreadyExists, dir, attempts: None },
                    )
                },
                Attempt::NotFound => if self.retries.on_create_directory <= 1 {
                    (
                        self.stopped(),
                        Outcome::Permanent {
                            err: Kind::NotFound,
                            dir,
                            attempts: Some(self.original.on_create_directory),
                        },
                    )
                } else {
                    popped.spend_directory().missing_parent(dir, path_parent(dir))
                },
                Attempt::Interrupted => if self.retries.on_interrupt <= 1 {
                    (
                        self.stopped(),
                        Outcome::Permanent {
                            err: Kind::Interrupted,
                            dir,
                            attempts: Some(self.original.on_interrupt),
                        },
                    )
                } else {
                    (self.spend_interrupt(), Outcome::Intermediate(Kind::Interrupted))
                },
                Attempt::Other => (
                    self.stopped(),
                    Outcome::Permanent { err: Kind::Other, dir, attempts: None },
                ),
            };
            (next, Some(outcome))
        }
    }

    /// The state after the answers `attempts`, one step for each, and the
    /// reports of those steps in order.
    pub open spec fn run(self, attempts: Seq<Attempt>) -> (State, Seq<Outcome>)
        decreases attempts.len(),
    {
        if attempts.len() == 0 {
            (self, Seq::empty())
        } else {
            let (before, reports) = self.run(attempts.drop_last());
            let (after, report) = before.step(attempts.last());
            match report {
                Some(outcome) => (after, reports.push(outcome)),
                None => (after, reports),
            }
        }
    }

    /// What holds of every state that a fresh request can reach: the pending
    /// paths lead upwards parent by parent, the budget left is within the
    /// budget given, and every pending path above the first was paid for.
    pub open spec fn inv(self) -> bool {
        &&& is_chain(self.cursors)
        &&& self.retries.on_interrupt <= self.original.on_interrupt
        &&& self.retries.on_create_directory <= self.original.on_create_directory
        &&& self.cursors.len() + self.retries.on_create_directory
            <= self.original.on_create_directory + 1
    }

    /// A bound on the number of reports that the request can still make.
    pub open spec fn fuel(self) -> nat {
        if self.finished() {
            0
        } else {
            (self.cursors.len() + 2 * self.retries.on_create_directory
                + self.retries.on_interrupt) as nat
        }
    }
}

} // verus!
