//! What holds of every creation request, proved of the state machine that
//! the driver implements.

use vstd::prelude::*;
use crate::create_dir::error::{Kind, Outcome};
use crate::create_dir::machine::{Attempt, State};
use crate::create_dir::path::{ancestor, path_parent};
use crate::create_dir::retries::Retries;

verus! {

/// `n` times the same value.
pub open spec fn repeat<A>(a: A, n: nat) -> Seq<A> {
    Seq::new(n, |i: int| a)
}

/// The target and the directories above it, `n` paths from the target
/// upwards.
pub open spec fn upwards(target: Seq<char>, n: nat) -> Seq<Seq<char>> {
    Seq::new(n, |i: int| ancestor(target, i as nat).unwrap())
}

/// The reports of `n` creations that end with the target, each directory
/// after the one above it.
pub open spec fn created_downwards(target: Seq<char>, n: nat) -> Seq<Outcome> {
    Seq::new(n, |i: int| Outcome::Created(ancestor(target, (n - 1 - i) as nat).unwrap()))
}

/// Whether the pending paths of `s` are the target and the directories above
/// it, without a gap.
pub open spec fn tracks(s: State, target: Seq<char>) -> bool {
    forall|i: int|
        0 <= i < s.cursors.len() ==> ancestor(target, i as nat) == Some(#[trigger] s.cursors[i])
}

/// A path that has a directory `levels` steps above it has one at every
/// level below that.
pub proof fn lemma_ancestors_below(path: Seq<char>, levels: nat, below: nat)
    requires
        ancestor(path, levels) is Some,
        below <= levels,
    ensures
        ancestor(path, below) is Some,
    decreases levels,
{
    if below < levels {
        lemma_ancestors_below(path, (levels - 1) as nat, below);
    }
}

/// Every step keeps the invariant of the state.
pub proof fn lemma_step_keeps_inv(s: State, attempt: Attempt)
    requires
        s.inv(),
    ensures
        s.step(attempt).0.inv(),
{
}

/// A finished request stays finished and reports nothing; every other step
/// reports something and leaves less fuel than it found.
pub proof fn lemma_step_burns_fuel(s: State, attempt: Attempt)
    ensures
        s.finished() ==> s.step(attempt) == (s, None::<Outcome>),
        !s.finished() ==> s.step(attempt).1 is Some && s.step(attempt).0.fuel() < s.fuel(),
{
}

/// A failure for good ends the request: after it nothing is pending.
pub proof fn lemma_permanent_ends(s: State, attempt: Attempt)
    requires
        s.step(attempt).1 matches Some(outcome) && outcome.is_permanent(),
    ensures
        s.step(attempt).0.finished(),
{
}

/// Whatever the file system answers to a finished request, the request stays
/// as it is and reports nothing.
pub proof fn lemma_finished_is_silent(s: State, attempts: Seq<Attempt>)
    requires
        s.finished(),
    ensures
        s.run(attempts) == (s, Seq::<Outcome>::empty()),
    decreases attempts.len(),
{
    if attempts.len() > 0 {
        lemma_finished_is_silent(s, attempts.drop_last());
    }
}

/// Driving a request through `first` and then through `then` is driving it
/// through both in one go.
pub proof fn lemma_run_in_two(s: State, first: Seq<Attempt>, then: Seq<Attempt>)
    ensures
        s.run(first + then) == (
            s.run(first).0.run(then).0,
            s.run(first).1 + s.run(first).0.run(then).1,
        ),
    decreases then.len(),
{
    let mid = s.run(first).0;
    if then.len() == 0 {
        assert(first + then =~= first);
        assert(s.run(first).1 + mid.run(then).1 =~= s.run(first).1);
    } else {
        lemma_run_in_two(s, first, then.drop_last());
        assert((first + then).drop_last() =~= first + then.drop_last());
        assert((first + then).last() == then.last());
        let before = mid.run(then.drop_last());
        let stepped = before.0.step(then.last());
        match stepped.1 {
            Some(outcome) => {
                assert((s.run(first).1 + before.1).push(outcome) =~= s.run(first).1
                    + before.1.push(outcome));
            },
            None => {},
        }
    }
}

/// The request converges: whatever the file system answers and however
/// often, the reports are no more than the fuel of the state they started
/// from, which the budget bounds.
pub proof fn lemma_reports_bounded(s: State, attempts: Seq<Attempt>)
    ensures
        s.run(attempts).1.len() + s.run(attempts).0.fuel() <= s.fuel(),
    decreases attempts.len(),
{
    if attempts.len() > 0 {
        lemma_reports_bounded(s, attempts.drop_last());
        lemma_step_burns_fuel(s.run(attempts.drop_last()).0, attempts.last());
    }
}

/// Nothing is reported after a failure for good: in the reports of a run
/// only the last can be one.
pub proof fn lemma_permanent_is_last(s: State, attempts: Seq<Attempt>, i: int)
    requires
        0 <= i < s.run(attempts).1.len(),
        s.run(attempts).1[i].is_permanent(),
    ensures
        i == s.run(attempts).1.len() - 1,
        s.run(attempts).0.finished(),
    decreases attempts.len(),
{
    if attempts.len() > 0 {
        let before = s.run(attempts.drop_last());
        let stepped = before.0.step(attempts.last());
        if i < before.1.len() {
            lemma_permanent_is_last(s, attempts.drop_last(), i);
            lemma_step_burns_fuel(before.0, attempts.last());
        }
    }
}

/// A request that tracks its target goes on tracking it, and a directory
/// that it reports as created is the one at the top of its pending paths:
/// the target itself or a directory above it; once that report leaves
/// nothing pending, it is the target.
pub proof fn lemma_step_tracks_target(s: State, attempt: Attempt, target: Seq<char>)
    requires
        tracks(s, target),
    ensures
        tracks(s.step(attempt).0, target),
        s.step(attempt).1 matches Some(Outcome::Created(dir)) ==> {
            &&& ancestor(target, (s.cursors.len() - 1) as nat) == Some(dir)
            &&& s.step(attempt).0.cursors == s.cursors.drop_last()
            &&& s.step(attempt).0.finished() ==> dir == target
        },
{
    if !s.finished() {
        let top = s.cursors.len() - 1;
        assert(ancestor(target, top as nat) == Some(s.cursors[top]));
        if s.cursors.len() == 1 {
            assert(ancestor(target, 0) == Some(target));
        }
        assert(ancestor(target, (top + 1) as nat) == path_parent(s.cursors[top]));
    }
}

/// Every run of a fresh request tracks its target, and the directories it
/// reports as created are the target or directories above it. Where the run
/// ends with nothing pending and its last report is a creation, that report
/// names the target.
pub proof fn lemma_run_tracks_target(
    target: Seq<char>,
    retries: Retries,
    attempts: Seq<Attempt>,
)
    ensures
        ({
            let (end, reports) = State::start(target, retries).run(attempts);
            &&& tracks(end, target)
            &&& forall|i: int|
                0 <= i < reports.len() ==> (#[trigger] reports[i] matches Outcome::Created(dir)
                    ==> exists|levels: nat| ancestor(target, levels) == Some(dir))
            &&& end.finished() && reports.len() > 0 ==> (reports.last() matches Outcome::Created(
                dir,
            ) ==> dir == target)
        }),
    decreases attempts.len(),
{
    let s = State::start(target, retries);
    if attempts.len() == 0 {
        assert(ancestor(target, 0) == Some(target));
    } else {
        lemma_run_tracks_target(target, retries, attempts.drop_last());
        let before = s.run(attempts.drop_last());
        lemma_step_tracks_target(before.0, attempts.last(), target);
        lemma_step_burns_fuel(before.0, attempts.last());
    }
}

/// A target whose parent exists and that does not exist itself: the one
/// attempt creates it. The request reports that creation, names the
/// target in it, and is over.
pub proof fn lemma_single_creation(target: Seq<char>, retries: Retries)
    ensures
        State::start(target, retries).run(seq![Attempt::Created]) == (
            State::start(target, retries).stopped(),
            seq![Outcome::Created(target)],
        ),
{
    let s = State::start(target, retries);
    let attempts = seq![Attempt::Created];
    assert(s.run(attempts.drop_last()) == (s, Seq::<Outcome>::empty()));
    assert(s.cursors.drop_last() =~= Seq::<Seq<char>>::empty());
    assert(Seq::<Outcome>::empty().push(Outcome::Created(target)) =~= seq![
        Outcome::Created(target),
    ]);
}

/// A target that exists already as a directory is reported as created, and
/// the request is over without a failure. So a second request for a target
/// that a first one created succeeds as the first did.
pub proof fn lemma_existing_directory(target: Seq<char>, retries: Retries)
    ensures
        State::start(target, retries).run(seq![Attempt::AlreadyExists { is_dir: true }]) == (
            State::start(target, retries).stopped(),
            seq![Outcome::Created(target)],
        ),
        State::start(target, retries).run(seq![Attempt::AlreadyExists { is_dir: true }])
            == State::start(target, retries).run(seq![Attempt::Created]),
{
    let s = State::start(target, retries);
    let attempts = seq![Attempt::AlreadyExists { is_dir: true }];
    assert(s.run(attempts.drop_last()) == (s, Seq::<Outcome>::empty()));
    assert(s.cursors.drop_last() =~= Seq::<Seq<char>>::empty());
    assert(Seq::<Outcome>::empty().push(Outcome::Created(target)) =~= seq![
        Outcome::Created(target),
    ]);
    lemma_single_creation(target, retries);
}

/// A budget that allows the target alone and a target whose parent is
/// missing: the first answer ends the request. The one report is the failure
/// for good, it cites the budget given, and nothing was reported as a
/// failure to recover from.
pub proof fn lemma_no_budget_for_parent(target: Seq<char>, retries: Retries)
    requires
        retries.on_create_directory <= 1,
    ensures
        State::start(target, retries).run(seq![Attempt::NotFound]) == (
            State::start(target, retries).stopped(),
            seq![
                Outcome::Permanent {
                    err: Kind::NotFound,
                    dir: target,
                    attempts: Some(retries.on_create_directory),
                },
            ],
        ),
{
    let s = State::start(target, retries);
    let attempts = seq![Attempt::NotFound];
    let report = Outcome::Permanent {
        err: Kind::NotFound,
        dir: target,
        attempts: Some(retries.on_create_directory),
    };
    assert(s.run(attempts.drop_last()) == (s, Seq::<Outcome>::empty()));
    assert(Seq::<Outcome>::empty().push(report) =~= seq![report]);
}

/// Something that is no directory holds the target's name: the one report is
/// the failure for good, without a count of attempts, and no directory is
/// reported as created.
pub proof fn lemma_name_taken(target: Seq<char>, retries: Retries)
    ensures
        State::start(target, retries).run(seq![Attempt::AlreadyExists { is_dir: false }]) == (
            State::start(target, retries).stopped(),
            seq![Outcome::Permanent { err: Kind::AlreadyExists, dir: target, attempts: None }],
        ),
{
    let s = State::start(target, retries);
    let attempts = seq![Attempt::AlreadyExists { is_dir: false }];
    let report = Outcome::Permanent { err: Kind::AlreadyExists, dir: target, attempts: None };
    assert(s.run(attempts.drop_last()) == (s, Seq::<Outcome>::empty()));
    assert(Seq::<Outcome>::empty().push(report) =~= seq![report]);
}

/// While the budget lasts, each answer that a parent is missing puts the
/// next directory upwards on the pending paths and takes one off the budget.
pub proof fn lemma_climb(target: Seq<char>, retries: Retries, levels: nat)
    requires
        ancestor(target, levels) is Some,
        levels < retries.on_create_directory,
    ensures
        State::start(target, retries).run(repeat(Attempt::NotFound, levels)) == (
            State {
                cursors: upwards(target, levels + 1),
                retries: Retries {
                    on_create_directory: (retries.on_create_directory - levels) as usize,
                    ..retries
                },
                original: retries,
            },
            repeat(Outcome::Intermediate(Kind::NotFound), levels),
        ),
    decreases levels,
{
    let s = State::start(target, retries);
    let attempts = repeat(Attempt::NotFound, levels);
    if levels == 0 {
        assert(s.cursors =~= upwards(target, 1));
        assert(repeat(Outcome::Intermediate(Kind::NotFound), 0) =~= Seq::<Outcome>::empty());
    } else {
        let below = (levels - 1) as nat;
        lemma_ancestors_below(target, levels, below);
        lemma_climb(target, retries, below);
        assert(attempts.drop_last() =~= repeat(Attempt::NotFound, below));
        let before = s.run(attempts.drop_last());
        let top = before.0.cursors.last();
        assert(top == ancestor(target, below).unwrap());
        assert(ancestor(target, levels) == path_parent(top));
        assert(before.0.cursors.drop_last().push(top) =~= before.0.cursors);
        assert(before.0.cursors.push(ancestor(target, levels).unwrap()) =~= upwards(
            target,
            levels + 1,
        ));
        assert(before.1.push(Outcome::Intermediate(Kind::NotFound)) =~= repeat(
            Outcome::Intermediate(Kind::NotFound),
            levels,
        ));
    }
}

/// With the target and `depth - 1` directories above it pending, answers
/// that each directory was created take them off from the top: the reports
/// name each directory after the one above it.
pub proof fn lemma_create_downwards(s: State, target: Seq<char>, depth: nat, count: nat)
    requires
        s.cursors == upwards(target, depth),
        count <= depth,
    ensures
        s.run(repeat(Attempt::Created, count)) == (
            State { cursors: upwards(target, (depth - count) as nat), ..s },
            Seq::new(
                count,
                |i: int| Outcome::Created(ancestor(target, (depth - 1 - i) as nat).unwrap()),
            ),
        ),
    decreases count,
{
    let attempts = repeat(Attempt::Created, count);
    let reports = Seq::new(
        count,
        |i: int| Outcome::Created(ancestor(target, (depth - 1 - i) as nat).unwrap()),
    );
    if count == 0 {
        assert(reports =~= Seq::<Outcome>::empty());
        assert(upwards(target, depth) =~= s.cursors);
    } else {
        let fewer = (count - 1) as nat;
        lemma_create_downwards(s, target, depth, fewer);
        assert(attempts.drop_last() =~= repeat(Attempt::Created, fewer));
        let before = s.run(attempts.drop_last());
        assert(before.0.cursors.drop_last() =~= upwards(target, (depth - count) as nat));
        assert(before.1.push(Outcome::Created(before.0.cursors.last())) =~= reports);
    }
}

/// A target with `levels` missing directories above it, on a file system
/// that nobody else changes: `levels` answers that a parent is missing, then
/// `levels + 1` creations. The request reports each of them, the creations
/// from the topmost missing directory down to the target, and is over; the
/// budget for creating directories is down by `levels`.
pub proof fn lemma_missing_ancestors(target: Seq<char>, retries: Retries, levels: nat)
    requires
        ancestor(target, levels) is Some,
        levels < retries.on_create_directory,
    ensures
        State::start(target, retries).run(
            repeat(Attempt::NotFound, levels) + repeat(Attempt::Created, levels + 1),
        ) == (
            State {
                cursors: Seq::empty(),
                retries: Retries {
                    on_create_directory: (retries.on_create_directory - levels) as usize,
                    ..retries
                },
                original: retries,
            },
            repeat(Outcome::Intermediate(Kind::NotFound), levels) + created_downwards(
                target,
                levels + 1,
            ),
        ),
{
    let s = State::start(target, retries);
    lemma_climb(target, retries, levels);
    let mid = s.run(repeat(Attempt::NotFound, levels)).0;
    lemma_create_downwards(mid, target, levels + 1, levels + 1);
    lemma_run_in_two(s, repeat(Attempt::NotFound, levels), repeat(Attempt::Created, levels + 1));
    assert(upwards(target, 0) =~= Seq::<Seq<char>>::empty());
    assert(mid.run(repeat(Attempt::Created, levels + 1)).1 =~= created_downwards(
        target,
        levels + 1,
    ));
}

/// While the budget lasts, each interrupt leaves the same directory pending
/// and takes one off the budget.
pub proof fn lemma_interrupts(target: Seq<char>, retries: Retries, count: nat)
    requires
        count < retries.on_interrupt,
    ensures
        State::start(target, retries).run(repeat(Attempt::Interrupted, count)) == (
            State {
                cursors: seq![target],
                retries: Retries {
                    on_interrupt: (retries.on_interrupt - count) as usize,
                    ..retries
                },
                original: retries,
            },
            repeat(Outcome::Intermediate(Kind::Interrupted), count),
        ),
    decreases count,
{
    let s = State::start(target, retries);
    let attempts = repeat(Attempt::Interrupted, count);
    if count == 0 {
        assert(repeat(Outcome::Intermediate(Kind::Interrupted), 0) =~= Seq::<Outcome>::empty());
    } else {
        let fewer = (count - 1) as nat;
        lemma_interrupts(target, retries, fewer);
        assert(attempts.drop_last() =~= repeat(Attempt::Interrupted, fewer));
        let before = s.run(attempts.drop_last());
        assert(before.1.push(Outcome::Intermediate(Kind::Interrupted)) =~= repeat(
            Outcome::Intermediate(Kind::Interrupted),
            count,
        ));
    }
}

/// `count` interrupts in a row on a budget of `count + 1`, then the
/// creation: the request reports each interrupt as a failure to recover
/// from, then the target as created, and is over.
pub proof fn lemma_interrupts_within_budget(target: Seq<char>, retries: Retries, count: nat)
    requires
        retries.on_interrupt == count + 1,
    ensures
        State::start(target, retries).run(
            repeat(Attempt::Interrupted, count) + seq![Attempt::Created],
        ) == (
            State {
                cursors: Seq::empty(),
                retries: Retries { on_interrupt: 1, ..retries },
                original: retries,
            },
            repeat(Outcome::Intermediate(Kind::Interrupted), count) + seq![
                Outcome::Created(target),
            ],
        ),
{
    let s = State::start(target, retries);
    lemma_interrupts(target, retries, count);
    let mid = s.run(repeat(Attempt::Interrupted, count)).0;
    lemma_single_creation(target, mid.retries);
    assert(mid.cursors.drop_last() =~= Seq::<Seq<char>>::empty());
    let last = seq![Attempt::Created];
    assert(mid.run(last.drop_last()) == (mid, Seq::<Outcome>::empty()));
    assert(Seq::<Outcome>::empty().push(Outcome::Created(target)) =~= seq![
        Outcome::Created(target),
    ]);
    lemma_run_in_two(s, repeat(Attempt::Interrupted, count), last);
}

/// `count` interrupts in a row on a budget of `count`, which is at least
/// one: the request recovers from all but the last, which uses the budget
/// up; its report is the failure for good and cites the budget given.
pub proof fn lemma_interrupts_beyond_budget(target: Seq<char>, retries: Retries, count: nat)
    requires
        count >= 1,
        retries.on_interrupt == count,
    ensures
        State::start(target, retries).run(repeat(Attempt::Interrupted, count)) == (
            State {
                cursors: Seq::empty(),
                retries: Retries { on_interrupt: 1, ..retries },
                original: retries,
            },
            repeat(Outcome::Intermediate(Kind::Interrupted), (count - 1) as nat) + seq![
                Outcome::Permanent {
                    err: Kind::Interrupted,
                    dir: target,
                    attempts: Some(retries.on_interrupt),
                },
            ],
        ),
{
    let s = State::start(target, retries);
    let fewer = (count - 1) as nat;
    let attempts = repeat(Attempt::Interrupted, count);
    let report = Outcome::Permanent {
        err: Kind::Interrupted,
        dir: target,
        attempts: Some(retries.on_interrupt),
    };
    lemma_interrupts(target, retries, fewer);
    assert(attempts.drop_last() =~= repeat(Attempt::Interrupted, fewer));
    let before = s.run(attempts.drop_last());
    assert(before.1.push(report) =~= repeat(Outcome::Intermediate(Kind::Interrupted), fewer)
        + seq![report]);
}

} // verus!
