use git_kit::create_dir::{Attempt, Error, Iter, Kind, Retries};

fn permanent(err: Kind, dir: &str, attempts: Option<usize>) -> Error {
    Error::Permanent {
        err,
        dir: dir.to_owned(),
        attempts,
    }
}

fn budget(on_interrupt: usize, on_create_directory: usize) -> Retries {
    Retries {
        on_interrupt,
        on_create_directory,
    }
}

#[test]
fn default_budget_is_ten_interrupts_and_a_hundred_directories() {
    let retries = Retries::default();
    assert_eq!(retries.on_interrupt, 10);
    assert_eq!(retries.on_create_directory, 100);
}

#[test]
fn new_request_has_the_target_pending_and_the_default_budget() {
    let it = Iter::new("a/b/c");
    assert_eq!(it.pending(), Some("a/b/c"));
    assert_eq!(it.retries(), Retries::default());
    assert_eq!(it.original_retries(), Retries::default());
}

#[test]
fn new_with_retries_keeps_the_budget_in_both_places() {
    let it = Iter::new_with_retries("dir", budget(3, 7));
    assert_eq!(it.pending(), Some("dir"));
    assert_eq!(it.retries(), budget(3, 7));
    assert_eq!(it.original_retries(), budget(3, 7));
}

#[test]
fn existing_ancestors_yield_one_creation_then_nothing() {
    let mut it = Iter::new("parent/leaf");
    assert_eq!(it.next(Attempt::Created), Some(Ok("parent/leaf")));
    assert_eq!(it.pending(), None);
    assert_eq!(it.next(Attempt::Created), None);
    assert_eq!(it.next(Attempt::NotFound), None);
    assert_eq!(it.retries(), Retries::default());
}

#[test]
fn two_missing_ancestors_are_created_from_the_top_down() {
    let mut it = Iter::new("base/a/b/c");
    assert_eq!(it.pending(), Some("base/a/b/c"));
    assert_eq!(
        it.next(Attempt::NotFound),
        Some(Err(Error::Intermediate(Kind::NotFound)))
    );
    assert_eq!(it.pending(), Some("base/a/b"));
    assert_eq!(
        it.next(Attempt::NotFound),
        Some(Err(Error::Intermediate(Kind::NotFound)))
    );
    assert_eq!(it.pending(), Some("base/a"));
    assert_eq!(it.next(Attempt::Created), Some(Ok("base/a")));
    assert_eq!(it.pending(), Some("base/a/b"));
    assert_eq!(it.next(Attempt::Created), Some(Ok("base/a/b")));
    assert_eq!(it.pending(), Some("base/a/b/c"));
    assert_eq!(it.next(Attempt::Created), Some(Ok("base/a/b/c")));
    assert_eq!(it.pending(), None);
    assert_eq!(it.next(Attempt::Created), None);
    assert_eq!(it.retries(), budget(10, 98));
    assert_eq!(it.original_retries(), budget(10, 100));
}

#[test]
fn parent_of_a_single_relative_component_is_the_empty_path() {
    let mut it = Iter::new("leaf");
    assert_eq!(
        it.next(Attempt::NotFound),
        Some(Err(Error::Intermediate(Kind::NotFound)))
    );
    assert_eq!(it.pending(), Some(""));
}

#[test]
fn trailing_separator_is_not_part_of_the_parent() {
    let mut it = Iter::new("a/b/");
    assert_eq!(
        it.next(Attempt::NotFound),
        Some(Err(Error::Intermediate(Kind::NotFound)))
    );
    assert_eq!(it.pending(), Some("a"));
}

#[test]
fn existing_directory_counts_as_created() {
    let mut first = Iter::new("twice");
    assert_eq!(first.next(Attempt::Created), Some(Ok("twice")));
    assert_eq!(first.next(Attempt::Created), None);

    let mut second = Iter::new("twice");
    assert_eq!(
        second.next(Attempt::AlreadyExists { is_dir: true }),
        Some(Ok("twice"))
    );
    assert_eq!(second.pending(), None);
    assert_eq!(second.retries(), Retries::default());
}

#[test]
fn budget_of_one_directory_fails_on_the_first_missing_parent() {
    let mut it = Iter::new_with_retries("missing/leaf", budget(10, 1));
    assert_eq!(
        it.next(Attempt::NotFound),
        Some(Err(permanent(Kind::NotFound, "missing/leaf", Some(1))))
    );
    assert_eq!(it.pending(), None);
    assert_eq!(it.next(Attempt::Created), None);
}

#[test]
fn budget_of_no_directory_fails_on_the_first_missing_parent() {
    let mut it = Iter::new_with_retries("missing/leaf", budget(10, 0));
    assert_eq!(
        it.next(Attempt::NotFound),
        Some(Err(permanent(Kind::NotFound, "missing/leaf", Some(0))))
    );
    assert_eq!(it.pending(), None);
}

#[test]
fn exhausted_directory_budget_cites_the_budget_given() {
    let mut it = Iter::new_with_retries("a/b/c/d", budget(10, 3));
    assert_eq!(
        it.next(Attempt::NotFound),
        Some(Err(Error::Intermediate(Kind::NotFound)))
    );
    assert_eq!(
        it.next(Attempt::NotFound),
        Some(Err(Error::Intermediate(Kind::NotFound)))
    );
    assert_eq!(it.retries(), budget(10, 1));
    assert_eq!(
        it.next(Attempt::NotFound),
        Some(Err(permanent(Kind::NotFound, "a/b", Some(3))))
    );
    assert_eq!(it.pending(), None);
    assert_eq!(it.next(Attempt::Created), None);
}

#[test]
fn file_at_the_target_is_a_permanent_conflict() {
    let mut it = Iter::new("some/file");
    assert_eq!(
        it.next(Attempt::AlreadyExists { is_dir: false }),
        Some(Err(permanent(Kind::AlreadyExists, "some/file", None)))
    );
    assert_eq!(it.pending(), None);
    assert_eq!(it.next(Attempt::Created), None);
}

#[test]
fn file_at_an_ancestor_ends_the_request_with_the_target_uncreated() {
    let mut it = Iter::new("file/leaf");
    assert_eq!(
        it.next(Attempt::NotFound),
        Some(Err(Error::Intermediate(Kind::NotFound)))
    );
    assert_eq!(
        it.next(Attempt::AlreadyExists { is_dir: false }),
        Some(Err(permanent(Kind::AlreadyExists, "file", None)))
    );
    assert_eq!(it.pending(), None);
}

#[test]
fn interrupts_within_the_budget_are_retried() {
    let mut it = Iter::new_with_retries("dir", budget(4, 100));
    for _ in 0..3 {
        assert_eq!(it.pending(), Some("dir"));
        assert_eq!(
            it.next(Attempt::Interrupted),
            Some(Err(Error::Intermediate(Kind::Interrupted)))
        );
    }
    assert_eq!(it.retries(), budget(1, 100));
    assert_eq!(it.next(Attempt::Created), Some(Ok("dir")));
    assert_eq!(it.next(Attempt::Created), None);
}

#[test]
fn interrupts_beyond_the_budget_fail_permanently() {
    let mut it = Iter::new_with_retries("dir", budget(3, 100));
    for _ in 0..2 {
        assert_eq!(
            it.next(Attempt::Interrupted),
            Some(Err(Error::Intermediate(Kind::Interrupted)))
        );
    }
    assert_eq!(
        it.next(Attempt::Interrupted),
        Some(Err(permanent(Kind::Interrupted, "dir", Some(3))))
    );
    assert_eq!(it.pending(), None);
    assert_eq!(it.next(Attempt::Created), None);
}

#[test]
fn budget_of_no_interrupt_fails_on_the_first_one() {
    let mut it = Iter::new_with_retries("dir", budget(0, 100));
    assert_eq!(
        it.next(Attempt::Interrupted),
        Some(Err(permanent(Kind::Interrupted, "dir", Some(0))))
    );
    assert_eq!(it.pending(), None);
}

#[test]
fn missing_root_is_invalid_input() {
    let mut it = Iter::new("/");
    assert_eq!(
        it.next(Attempt::NotFound),
        Some(Err(permanent(Kind::InvalidInput, "/", Some(1))))
    );
    assert_eq!(it.pending(), None);
    assert_eq!(it.retries(), budget(10, 99));
    assert_eq!(it.next(Attempt::Created), None);
}

#[test]
fn empty_path_has_no_parent() {
    let mut it = Iter::new("");
    assert_eq!(
        it.next(Attempt::NotFound),
        Some(Err(permanent(Kind::InvalidInput, "", Some(1))))
    );
    assert_eq!(it.pending(), None);
}

#[test]
fn unknown_failure_is_permanent() {
    let mut it = Iter::new("a/b");
    assert_eq!(
        it.next(Attempt::Other),
        Some(Err(permanent(Kind::Other, "a/b", None)))
    );
    assert_eq!(it.pending(), None);
    assert_eq!(it.next(Attempt::Created), None);
}

#[test]
fn parent_deleted_by_another_process_is_created_again() {
    let mut it = Iter::new("a/b");
    assert_eq!(
        it.next(Attempt::NotFound),
        Some(Err(Error::Intermediate(Kind::NotFound)))
    );
    assert_eq!(it.next(Attempt::Created), Some(Ok("a")));
    assert_eq!(it.pending(), Some("a/b"));
    assert_eq!(
        it.next(Attempt::NotFound),
        Some(Err(Error::Intermediate(Kind::NotFound)))
    );
    assert_eq!(it.pending(), Some("a"));
    assert_eq!(
        it.next(Attempt::AlreadyExists { is_dir: true }),
        Some(Ok("a"))
    );
    assert_eq!(it.next(Attempt::Created), Some(Ok("a/b")));
    assert_eq!(it.pending(), None);
    assert_eq!(it.retries(), budget(10, 98));
}

#[test]
fn missing_parent_puts_the_directory_and_its_parent_back() {
    let mut it = Iter::new("x/y");
    assert_eq!(it.next(Attempt::Created), Some(Ok("x/y")));
    assert_eq!(
        it.missing_parent("x/y", Some("x")),
        Some(Err(Error::Intermediate(Kind::NotFound)))
    );
    assert_eq!(it.pending(), Some("x"));
    assert_eq!(it.next(Attempt::Created), Some(Ok("x")));
    assert_eq!(it.pending(), Some("x/y"));
    assert_eq!(it.retries(), Retries::default());
}

#[test]
fn missing_parent_of_a_root_ends_the_request() {
    let mut it = Iter::new("x/y");
    assert_eq!(
        it.missing_parent("/", None),
        Some(Err(permanent(Kind::InvalidInput, "/", Some(1))))
    );
    assert_eq!(it.pending(), None);
}

#[test]
fn intermediate_gives_the_kind_of_a_passing_failure_only() {
    assert_eq!(
        Error::Intermediate(Kind::NotFound).intermediate(),
        Some(Kind::NotFound)
    );
    assert_eq!(
        Error::Intermediate(Kind::Interrupted).intermediate(),
        Some(Kind::Interrupted)
    );
    assert_eq!(
        permanent(Kind::NotFound, "dir", Some(1)).intermediate(),
        None
    );
}

#[test]
fn reports_are_bounded_by_the_budget_whatever_the_answers() {
    let retries = budget(4, 5);
    let answers = [
        Attempt::NotFound,
        Attempt::Interrupted,
        Attempt::Created,
        Attempt::NotFound,
        Attempt::Interrupted,
    ];
    let mut it = Iter::new_with_retries("a/b/c/d/e/f/g/h", retries);
    let mut reports = 0usize;
    let mut turn = 0usize;
    let mut permanent_seen = false;
    while it.pending().is_some() {
        let out = it.next(answers[turn % answers.len()]);
        assert!(!permanent_seen);
        match out {
            Some(Err(Error::Permanent { .. })) => permanent_seen = true,
            Some(_) => {}
            None => panic!("a pending request reports something"),
        }
        reports += 1;
        turn += 1;
        assert!(reports <= 1 + 2 * retries.on_create_directory + retries.on_interrupt);
    }
    assert!(permanent_seen);
    assert_eq!(it.next(Attempt::Created), None);
}
