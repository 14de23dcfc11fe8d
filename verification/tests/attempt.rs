use read_write_store::attempt::{Action, Event, Purpose, ReadAttempt, ReadRelease, TransitionAttempt};
use read_write_store::header::{Header, MAX_CONCURRENT_READS};
use read_write_store::Instant;
use read_write_store::Timeout::{BlockIndefinitely, BlockUntil, DontBlock};

const UNLOCKED: u64 = 0x8000_0000_0000_0007;
const ONE_READER: u64 = 0x8000_0001_0000_0007;
const WRITE_LOCKED: u64 = 0xffff_ffff_0000_0007;
const WRITE_LOCKED_WITH_WAITER: u64 = 0x7fff_ffff_0000_0007;
const OTHER: u64 = 0x8000_0000_0000_0008;

/// Does to the word what an action says, as a thread that nobody interferes with.
fn perform(action: Action, word: &mut u64) -> Event {
    match action {
        Action::Load => Event::Observed(*word),
        Action::CompareExchange { expected, new, .. } => {
            if *word == expected {
                *word = new;
                Event::Exchanged
            } else {
                Event::Observed(*word)
            }
        }
        Action::EnterQueue => Event::Entered,
        Action::LeaveQueue => Event::Left,
        _ => panic!("there is nothing to be done to the word"),
    }
}

fn step_read(attempt: &mut ReadAttempt, word: &mut u64) -> Action {
    let event = perform(attempt.action(), word);
    attempt.advance(event);
    attempt.action()
}

fn step_transition(attempt: &mut TransitionAttempt, word: &mut u64) -> Action {
    let event = perform(attempt.action(), word);
    attempt.advance(event);
    attempt.action()
}

#[test]
fn an_undisturbed_reader_gets_the_lock() {
    let mut word = UNLOCKED;
    let mut attempt = ReadAttempt::new(7, DontBlock);
    assert_eq!(attempt.action(), Action::Load);
    assert_eq!(
        step_read(&mut attempt, &mut word),
        Action::CompareExchange { expected: UNLOCKED, new: ONE_READER, weak: true }
    );
    assert_eq!(step_read(&mut attempt, &mut word), Action::Finish(true));
    assert_eq!(word, ONE_READER);
}

#[test]
fn a_reader_counts_the_reader_that_came_in_between() {
    let mut word = UNLOCKED;
    let mut attempt = ReadAttempt::new(7, DontBlock);
    step_read(&mut attempt, &mut word);
    word = ONE_READER;
    assert_eq!(
        step_read(&mut attempt, &mut word),
        Action::CompareExchange { expected: ONE_READER, new: 0x8000_0002_0000_0007, weak: true }
    );
    assert_eq!(step_read(&mut attempt, &mut word), Action::Finish(true));
    assert_eq!(word, 0x8000_0002_0000_0007);
}

#[test]
fn a_reader_notices_that_the_data_was_replaced() {
    let mut word = UNLOCKED;
    let mut attempt = ReadAttempt::new(7, BlockIndefinitely);
    step_read(&mut attempt, &mut word);
    word = OTHER;
    assert_eq!(step_read(&mut attempt, &mut word), Action::Finish(false));
    assert_eq!(word, OTHER);
}

#[test]
fn a_reader_that_may_not_block_times_out() {
    let mut word = WRITE_LOCKED;
    let mut attempt = ReadAttempt::new(7, DontBlock);
    assert_eq!(step_read(&mut attempt, &mut word), Action::TimeOut);
    assert_eq!(word, WRITE_LOCKED);
}

#[test]
fn a_reader_sleeps_until_the_writer_is_done() {
    let mut word = WRITE_LOCKED;
    let mut attempt = ReadAttempt::new(7, BlockIndefinitely);
    assert_eq!(step_read(&mut attempt, &mut word), Action::EnterQueue);
    assert_eq!(step_read(&mut attempt, &mut word), Action::Load);
    assert_eq!(
        step_read(&mut attempt, &mut word),
        Action::CompareExchange {
            expected: WRITE_LOCKED,
            new: WRITE_LOCKED_WITH_WAITER,
            weak: false
        }
    );
    assert_eq!(step_read(&mut attempt, &mut word), Action::Park);
    assert!(Header::has_thread_blocking(word));
    word = UNLOCKED;
    attempt.advance(Event::Waited);
    assert_eq!(attempt.action(), Action::EnterQueue);
    assert_eq!(step_read(&mut attempt, &mut word), Action::Load);
    assert_eq!(step_read(&mut attempt, &mut word), Action::LeaveQueue);
    step_read(&mut attempt, &mut word);
    assert_eq!(step_read(&mut attempt, &mut word), Action::Finish(true));
    assert_eq!(word, ONE_READER);
}

#[test]
fn a_reader_does_not_sleep_if_the_writer_is_done_before_it_marks_the_header() {
    let mut word = WRITE_LOCKED;
    let mut attempt = ReadAttempt::new(7, BlockIndefinitely);
    step_read(&mut attempt, &mut word);
    step_read(&mut attempt, &mut word);
    step_read(&mut attempt, &mut word);
    word = UNLOCKED;
    assert_eq!(step_read(&mut attempt, &mut word), Action::Load);
    assert_eq!(step_read(&mut attempt, &mut word), Action::LeaveQueue);
    step_read(&mut attempt, &mut word);
    assert_eq!(step_read(&mut attempt, &mut word), Action::Finish(true));
}

#[test]
fn a_reader_gives_up_at_its_deadline() {
    let mut word = WRITE_LOCKED;
    let mut attempt = ReadAttempt::new(7, BlockUntil(Instant { nanos: 1 }));
    while attempt.action() != Action::Park {
        step_read(&mut attempt, &mut word);
    }
    attempt.advance(Event::TimedOut);
    assert_eq!(attempt.action(), Action::TimeOut);
}

#[test]
fn a_reader_leaves_the_queue_if_the_data_is_gone() {
    let mut word = WRITE_LOCKED;
    let mut attempt = ReadAttempt::new(7, BlockIndefinitely);
    step_read(&mut attempt, &mut word);
    step_read(&mut attempt, &mut word);
    word = OTHER;
    assert_eq!(step_read(&mut attempt, &mut word), Action::LeaveQueue);
    assert_eq!(step_read(&mut attempt, &mut word), Action::Finish(false));
}

#[test]
fn readers_are_not_counted_beyond_the_maximum() {
    let full = UNLOCKED + ((MAX_CONCURRENT_READS as u64) << 32);
    let mut word = full;
    let mut attempt = ReadAttempt::new(7, DontBlock);
    assert_eq!(step_read(&mut attempt, &mut word), Action::TooManyReaders);

    let mut word = WRITE_LOCKED;
    let mut attempt = ReadAttempt::new(7, BlockIndefinitely);
    step_read(&mut attempt, &mut word);
    step_read(&mut attempt, &mut word);
    word = full;
    assert_eq!(step_read(&mut attempt, &mut word), Action::LeaveQueue);
    assert_eq!(step_read(&mut attempt, &mut word), Action::TooManyReaders);
}

#[test]
fn an_undisturbed_writer_gets_the_lock() {
    let mut word = UNLOCKED;
    let mut attempt = TransitionAttempt::new(7, Purpose::LockWrite, DontBlock);
    assert_eq!(
        attempt.action(),
        Action::CompareExchange { expected: UNLOCKED, new: WRITE_LOCKED, weak: true }
    );
    assert_eq!(step_transition(&mut attempt, &mut word), Action::Finish(true));
    assert_eq!(word, WRITE_LOCKED);
}

#[test]
fn an_undisturbed_remover_gets_the_data() {
    let mut word = UNLOCKED;
    let mut attempt = TransitionAttempt::new(7, Purpose::Remove, DontBlock);
    assert_eq!(step_transition(&mut attempt, &mut word), Action::Finish(true));
    assert_eq!(word, 8);
}

#[test]
fn a_weak_exchange_is_tried_again() {
    let mut attempt = TransitionAttempt::new(7, Purpose::LockWrite, DontBlock);
    let action = attempt.action();
    attempt.advance(Event::Observed(UNLOCKED));
    assert_eq!(attempt.action(), action);
}

#[test]
fn a_writer_that_may_not_block_times_out() {
    let mut word = ONE_READER;
    let mut attempt = TransitionAttempt::new(7, Purpose::LockWrite, DontBlock);
    assert_eq!(step_transition(&mut attempt, &mut word), Action::TimeOut);
    assert_eq!(word, ONE_READER);
}

#[test]
fn a_writer_notices_that_the_data_was_replaced() {
    let mut word = OTHER;
    let mut attempt = TransitionAttempt::new(7, Purpose::Remove, BlockIndefinitely);
    assert_eq!(step_transition(&mut attempt, &mut word), Action::Finish(false));
}

#[test]
fn a_writer_sleeps_until_the_last_reader_is_done() {
    let mut word = ONE_READER;
    let mut attempt = TransitionAttempt::new(7, Purpose::LockWrite, BlockIndefinitely);
    assert_eq!(step_transition(&mut attempt, &mut word), Action::EnterQueue);
    assert_eq!(
        step_transition(&mut attempt, &mut word),
        Action::CompareExchange { expected: UNLOCKED, new: WRITE_LOCKED, weak: false }
    );
    assert_eq!(
        step_transition(&mut attempt, &mut word),
        Action::CompareExchange { expected: ONE_READER, new: 0x0000_0001_0000_0007, weak: false }
    );
    assert_eq!(step_transition(&mut attempt, &mut word), Action::Park);

    let mut release = ReadRelease::new(7);
    assert_eq!(release.action(), Action::Load);
    let event = perform(release.action(), &mut word);
    release.advance(event);
    let event = perform(release.action(), &mut word);
    release.advance(event);
    assert_eq!(release.action(), Action::Finish(true));
    assert_eq!(word, UNLOCKED);

    attempt.advance(Event::Waited);
    step_transition(&mut attempt, &mut word);
    assert_eq!(step_transition(&mut attempt, &mut word), Action::LeaveQueue);
    assert_eq!(step_transition(&mut attempt, &mut word), Action::Finish(true));
    assert_eq!(word, WRITE_LOCKED);
}

#[test]
fn a_writer_in_the_queue_marks_the_word_that_it_observed() {
    let mut word = ONE_READER;
    let mut attempt = TransitionAttempt::new(7, Purpose::LockWrite, BlockIndefinitely);
    step_transition(&mut attempt, &mut word);
    step_transition(&mut attempt, &mut word);
    step_transition(&mut attempt, &mut word);
    word = 0x8000_0002_0000_0007;
    // The word changed before it could be marked, so the exchange is tried again
    assert_eq!(
        step_transition(&mut attempt, &mut word),
        Action::CompareExchange { expected: UNLOCKED, new: WRITE_LOCKED, weak: false }
    );
    assert_eq!(
        step_transition(&mut attempt, &mut word),
        Action::CompareExchange {
            expected: 0x8000_0002_0000_0007,
            new: 0x0000_0002_0000_0007,
            weak: false
        }
    );
    word = OTHER;
    step_transition(&mut attempt, &mut word);
    assert_eq!(step_transition(&mut attempt, &mut word), Action::LeaveQueue);
    assert_eq!(step_transition(&mut attempt, &mut word), Action::Finish(false));
}

#[test]
fn a_release_counts_the_readers_that_came_in_between() {
    let mut word = ONE_READER;
    let mut release = ReadRelease::new(7);
    let event = perform(release.action(), &mut word);
    release.advance(event);
    word = 0x8000_0002_0000_0007;
    let event = perform(release.action(), &mut word);
    release.advance(event);
    let event = perform(release.action(), &mut word);
    release.advance(event);
    assert_eq!(release.action(), Action::Finish(false));
    assert_eq!(word, ONE_READER);
}
