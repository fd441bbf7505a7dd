//! The driver of a creation request: it names the path to try next and
//! takes the answer of the file system to each attempt.

use vstd::prelude::*;
use crate::create_dir::error::{yielded, Error, Kind, Outcome};
use crate::create_dir::laws::{lemma_step_burns_fuel, lemma_step_keeps_inv};
use crate::create_dir::machine::{Attempt, State};
use crate::create_dir::path::{parent, text_of};
use crate::create_dir::retries::Retries;

verus! {

/// A request to create a directory and all of its missing ancestors.
///
/// The caller asks for the path to try with [`Iter::pending`], tries to
/// create that directory, and reports the answer to [`Iter::next`]:
///
/// * `Some(Ok(created_directory))` is yielded once or more on success,
///   followed by `None`,
/// * `Some(Err(Error::Intermediate))` is yielded zero or more times while
///   trying to create the directory,
/// * `Some(Err(Error::Permanent))` is yielded exactly once on failure.
pub struct Iter<'a> {
    cursors: Vec<&'a str>,
    retries: Retries,
    original_retries: Retries,
}

impl<'a> View for Iter<'a> {
    type V = State;

    closed spec fn view(&self) -> State {
        State {
            cursors: self.cursors@.map_values(|p: &str| p@),
            retries: self.retries,
            original: self.original_retries,
        }
    }
}

impl<'a> Iter<'a> {
    /// A request for `target` with the standard budget.
    pub fn new(target: &'a str) -> (it: Self)
        ensures
            it@ == State::start(target@, Retries::standard()),
            it@.inv(),
    {
        Iter::new_with_retries(target, Retries::default())
    }

    /// A request for `target` with the budget `retries`.
    pub fn new_with_retries(target: &'a str, retries: Retries) -> (it: Self)
        ensures
            it@ == State::start(target@, retries),
            it@.inv(),
    {
        let mut cursors: Vec<&'a str> = Vec::new();
        cursors.push(target);
        let it = Iter { cursors, original_retries: retries, retries };
        assert(it@.cursors =~= seq![target@]);
        it
    }

    /// The directory to try next, and `None` once the request is over.
    pub fn pending(&self) -> (dir: Option<&'a str>)
        ensures
            dir is None <==> self@.finished(),
            dir matches Some(d) ==> d@ == self@.cursors.last(),
    {
        let n = self.cursors.len();
        if n == 0 {
            None
        } else {
            Some(self.cursors[n - 1])
        }
    }

    /// The budget that is left.
    pub fn retries(&self) -> (r: Retries)
        ensures
            r == self@.retries,
    {
        self.retries
    }

    /// The budget that the request started with.
    pub fn original_retries(&self) -> (r: Retries)
        ensures
            r == self@.original,
    {
        self.original_retries
    }

    /// Ends the request: nothing is left to try, and the report names `dir`
    /// with the failure `err` and the attempts that were allowed.
    fn pernanent_failure(&mut self, dir: &str, err: Kind, attempts: Option<usize>) -> (out: Option<
        Result<&'a str, Error>,
    >)
        ensures
            final(self)@ == old(self)@.stopped(),
            yielded(out) == Some(Outcome::Permanent { err, dir: dir@, attempts }),
    {
        self.cursors.clear();
        assert(self@.cursors =~= Seq::empty());
        Some(Err(Error::Permanent { err, dir: dir.to_owned(), attempts }))
    }

    /// The report of a failure that the request recovers from.
    fn intermediate_failure(&self, err: Kind) -> (out: Option<Result<&'a str, Error>>)
        ensures
            yielded(out) == Some(Outcome::Intermediate(err)),
    {
        Some(Err(Error::Intermediate(err)))
    }

    /// Goes one level up after the file system missed a component above
    /// `dir`: with `parent` the directory above `dir`, both are pending
    /// again, the parent first. A `dir` without a parent ends the request.
    pub fn missing_parent(&mut self, dir: &'a str, parent: Option<&'a str>) -> (out: Option<
        Result<&'a str, Error>,
    >)
        ensures
            final(self)@ == old(self)@.missing_parent(dir@, text_of(parent)).0,
            yielded(out) == Some(old(self)@.missing_parent(dir@, text_of(parent)).1),
    {
        match parent {
            None => self.pernanent_failure(dir, Kind::InvalidInput, Some(1)),
            Some(above) => {
                self.cursors.push(dir);
                self.cursors.push(above);
                assert(self@.cursors =~= old(self)@.cursors.push(dir@).push(above@));
                self.intermediate_failure(Kind::NotFound)
            },
        }
    }

    /// Takes the answer `attempt` of the file system to the creation of the
    /// pending directory, and yields the report of this step; `None` once
    /// the request is over.
    pub fn next(&mut self, attempt: Attempt) -> (out: Option<Result<&'a str, Error>>)
        ensures
            final(self)@ == old(self)@.step(attempt).0,
            yielded(out) == old(self)@.step(attempt).1,
            out is None <==> old(self)@.finished(),
            out matches Some(Err(e)) && e@.is_permanent() ==> final(self)@.finished(),
            out is Some ==> final(self)@.fuel() < old(self)@.fuel(),
            old(self)@.inv() ==> final(self)@.inv(),
    {
        proof {
            lemma_step_burns_fuel(old(self)@, attempt);
            if old(self)@.inv() {
                lemma_step_keeps_inv(old(self)@, attempt);
            }
        }
        match self.cursors.pop() {
            None => None,
            Some(dir) => {
                assert(dir@ == old(self)@.cursors.last());
                assert(self@.cursors =~= old(self)@.cursors.drop_last());
                match attempt {
                    Attempt::Created => Some(Ok(dir)),
                    Attempt::AlreadyExists { is_dir } => if is_dir {
                        Some(Ok(dir))
                    } else {
                        self.pernanent_failure(dir, Kind::AlreadyExists, None)
                    },
                    Attempt::NotFound => if self.retries.on_create_directory <= 1 {
                        let allowed = self.original_retries.on_create_directory;
                        self.pernanent_failure(dir, Kind::NotFound, Some(allowed))
                    } else {
                        self.retries.on_create_directory -= 1;
                        let above = parent(dir);
                        self.missing_parent(dir, above)
                    },
                    Attempt::Interrupted => if self.retries.on_interrupt <= 1 {
                        let allowed = self.original_retries.on_interrupt;
                        self.pernanent_failure(dir, Kind::Interrupted, Some(allowed))
                    } else {
                        self.retries.on_interrupt -= 1;
                        self.cursors.push(dir);
                        assert(self@.cursors =~= old(self)@.cursors);
                        self.intermediate_failure(Kind::Interrupted)
                    },
                    Attempt::Other => self.pernanent_failure(dir, Kind::Other, None),
                }
            },
        }
    }
}

} // verus!
