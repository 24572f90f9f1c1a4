use std::cell::Cell;

use typedb::retry::after_failure;
use typedb::{retry, Verdict, DEFAULT_ATTEMPTS};

#[test]
fn ten_attempts_by_default() {
    assert_eq!(DEFAULT_ATTEMPTS, 10);
}

#[test]
fn success_at_once_makes_one_call_and_no_pause() {
    let calls = Cell::new(0u32);
    let pauses = Cell::new(0u32);
    let r: Result<u32, typedb::Exhausted<&str>> = retry(
        10,
        || {
            calls.set(calls.get() + 1);
            Ok(7)
        },
        || pauses.set(pauses.get() + 1),
    );
    assert_eq!(r.ok(), Some(7));
    assert_eq!(calls.get(), 1);
    assert_eq!(pauses.get(), 0);
}

#[test]
fn success_after_failures_pauses_between_attempts() {
    let calls = Cell::new(0u32);
    let pauses = Cell::new(0u32);
    let r = retry(
        10,
        || {
            calls.set(calls.get() + 1);
            if calls.get() < 4 {
                Err(calls.get())
            } else {
                Ok("done")
            }
        },
        || pauses.set(pauses.get() + 1),
    );
    assert_eq!(r.ok(), Some("done"));
    assert_eq!(calls.get(), 4);
    assert_eq!(pauses.get(), 3);
}

#[test]
fn giving_up_returns_the_last_failure() {
    let calls = Cell::new(0u32);
    let pauses = Cell::new(0u32);
    let r: Result<(), _> = retry(
        5,
        || {
            calls.set(calls.get() + 1);
            Err(calls.get())
        },
        || pauses.set(pauses.get() + 1),
    );
    let exhausted = r.err().unwrap();
    assert_eq!(exhausted.last, 5);
    assert_eq!(exhausted.attempts, 5);
    assert_eq!(calls.get(), 5);
    assert_eq!(pauses.get(), 4);
}

#[test]
fn a_limit_of_nothing_still_tries_once() {
    let calls = Cell::new(0u32);
    let r: Result<(), _> = retry(
        0,
        || {
            calls.set(calls.get() + 1);
            Err(())
        },
        || (),
    );
    assert_eq!(r.err().unwrap().attempts, 1);
    assert_eq!(calls.get(), 1);
}

#[test]
fn verdict_after_each_failure() {
    assert_eq!(after_failure(3, 0), (Verdict::Again, 1));
    assert_eq!(after_failure(3, 1), (Verdict::Again, 2));
    assert_eq!(after_failure(3, 2), (Verdict::GiveUp, 2));
    assert_eq!(after_failure(1, 0), (Verdict::GiveUp, 0));
    assert_eq!(after_failure(0, 0), (Verdict::GiveUp, 0));
    assert_eq!(after_failure(u32::MAX, u32::MAX - 1), (Verdict::GiveUp, u32::MAX - 1));
}
