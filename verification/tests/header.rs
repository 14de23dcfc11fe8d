use read_write_store::header::{
    BlockChoice, Header, ReadResponse, ReadStep, RemoveResult, TransitionStep,
    MAX_CONCURRENT_READS, RESERVED_ID,
};
use read_write_store::util::sync::park::{Park, ParkChoice, ParkResult, Wakeup};
use read_write_store::BlockResult;
use read_write_store::Instant;
use read_write_store::TimedOut;
use read_write_store::Timeout::{BlockIndefinitely, BlockUntil, DontBlock};

#[test]
fn reset_initially_returns_none() {
    let mut header = Header::new();
    assert_eq!(header.reset(), None);
}

#[test]
fn reset_returns_the_tracked_id() {
    {
        let mut header = Header::new();
        let id = header.occupy();

        assert_eq!(header.reset(), Some(id));
    }

    {
        let mut header = Header::new();
        let id = header.occupy();
        header.remove(id, DontBlock).unwrap();
        let id = header.occupy();

        assert_eq!(header.reset(), Some(id));
    }
}

#[test]
fn reset_returns_none_after_double_invocation() {
    let mut header = Header::new();
    header.occupy();

    header.reset();
    assert_eq!(header.reset(), None);
}

#[test]
fn needs_drop_is_false_initially() {
    let header = Header::new();
    assert!(!header.needs_drop());
}

#[test]
fn needs_drop_is_true_after_occupation() {
    let mut header = Header::new();
    header.occupy();

    assert!(header.needs_drop());
}

#[test]
fn needs_drop_is_false_after_removal() {
    let mut header = Header::new();
    let id = header.occupy();

    header.remove(id, DontBlock).unwrap();
    assert!(!header.needs_drop());
}

#[test]
fn needs_drop_is_false_after_locked_removal() {
    let mut header = Header::new();
    let id = header.occupy();

    header.lock_write(id, DontBlock).unwrap();
    header.remove_locked(id);

    assert!(!header.needs_drop());
}

#[test]
fn header_lock_read_succeeds_when_id_matches() {
    let mut header = Header::new();
    let id = header.occupy();

    assert_eq!(header.lock_read(id, DontBlock), Ok(true));
    header.unlock_read(id);
}

#[test]
fn lock_write_succeeds_when_id_matches() {
    let mut header = Header::new();
    let id = header.occupy();

    assert_eq!(header.lock_write(id, DontBlock), Ok(true));
    header.unlock_write(id);
}

#[test]
fn header_lock_read_fails_when_id_doesnt_match() {
    let mut header = Header::new();
    let id = header.occupy();

    assert_eq!(header.lock_read(id + 1, DontBlock), Ok(false));
}

#[test]
fn lock_write_fails_when_id_doesnt_match() {
    let mut header = Header::new();
    let id = header.occupy();

    assert_eq!(header.lock_write(id + 1, DontBlock), Ok(false));
}

#[test]
fn double_read_lock_succeeds() {
    let mut header = Header::new();
    let id = header.occupy();

    header.lock_read(id, DontBlock).unwrap();
    assert_eq!(header.lock_read(id, DontBlock), Ok(true));
    header.unlock_read(id);
    header.unlock_read(id);
}

#[test]
fn remove_succeeds_when_id_matches() {
    let mut header = Header::new();
    let id = header.occupy();

    assert_eq!(
        header.remove(id, DontBlock),
        Ok(RemoveResult::Matched { may_reuse: true })
    );
}

#[test]
fn remove_fails_when_id_doesnt_match() {
    let mut header = Header::new();
    let id = header.occupy();

    assert_eq!(
        header.remove(id + 1, DontBlock),
        Ok(RemoveResult::DidntMatch)
    );
}

#[test]
fn remove_fails_before_occupation() {
    let mut header = Header::new();
    assert_eq!(header.remove(42, DontBlock), Ok(RemoveResult::DidntMatch));
}

#[test]
fn remove_fails_after_double_invocation() {
    let mut header = Header::new();
    let id = header.occupy();

    header.remove(id, DontBlock).unwrap();
    assert_eq!(header.remove(id, DontBlock), Ok(RemoveResult::DidntMatch));
}

#[test]
fn cannot_lock_read_when_locking_write() {
    let mut header = Header::new();
    let id = header.occupy();

    header.lock_write(id, DontBlock).unwrap();
    assert_eq!(header.lock_read(id, DontBlock), Err(TimedOut));
    header.unlock_write(id);
}

#[test]
fn cannot_lock_write_when_locking_read() {
    let mut header = Header::new();
    let id = header.occupy();

    header.lock_read(id, DontBlock).unwrap();
    assert_eq!(header.lock_write(id, DontBlock), Err(TimedOut));
    header.unlock_read(id);
}

#[test]
fn cannot_remove_when_locking_read() {
    let mut header = Header::new();
    let id = header.occupy();

    header.lock_read(id, DontBlock).unwrap();
    assert_eq!(header.remove(id, DontBlock), Err(TimedOut));
    header.unlock_read(id);
}

#[test]
fn cannot_remove_when_locking_write() {
    let mut header = Header::new();
    let id = header.occupy();

    header.lock_write(id, DontBlock).unwrap();
    assert_eq!(header.remove(id, DontBlock), Err(TimedOut));
    header.unlock_write(id);
}

#[test]
fn occupation_uses_the_ids_one_after_the_other() {
    let mut header = Header::new();
    for expected in 0..5 {
        let id = header.occupy();
        assert_eq!(id, expected);
        assert_eq!(header.id(), expected);
        assert_eq!(header.id_if_occupied(), Some(expected));
        header.remove(id, DontBlock).unwrap();
        assert_eq!(header.id_if_occupied(), None);
    }
}

#[test]
fn the_last_id_is_not_reused() {
    let mut header = Header::new();
    header.insert(RESERVED_ID - 1);
    assert_eq!(
        header.remove(RESERVED_ID - 1, DontBlock),
        Ok(RemoveResult::Matched { may_reuse: false })
    );

    let mut header = Header::new();
    header.insert(RESERVED_ID - 1);
    header.lock_write(RESERVED_ID - 1, DontBlock).unwrap();
    assert!(!header.remove_locked(RESERVED_ID - 1).may_reuse);
}

#[test]
fn words_are_laid_out_in_three_fields() {
    assert_eq!(Header::unoccupied_bits(42), 42);
    assert_eq!(Header::occupied_unlocked_bits(42), 0x8000_0000_0000_002a);
    assert_eq!(Header::write_locked_bits(42), 0xffff_ffff_0000_002a);
    assert_eq!(Header::thread_notification_mask(), 0x8000_0000_0000_0000);
    assert_eq!(Header::id_from_bits(0xffff_ffff_0000_002a), 42);
    assert_eq!(Header::readers_from_bits(0x8000_0003_0000_002a), 3);
    assert_eq!(Header::readers_from_bits(0xffff_ffff_0000_002a), 0x7fff_ffff);
    assert_eq!(Header::increment_readers(0x8000_0000_0000_002a), 0x8000_0001_0000_002a);
    assert_eq!(Header::increment_readers(0x0000_0000_0000_002a), 0x0000_0001_0000_002a);
    assert_eq!(Header::decrement_readers(0x8000_0001_0000_002a), 0x8000_0000_0000_002a);
    assert_eq!(Header::decrement_readers(0xffff_ffff_0000_002a), 0xffff_fffe_0000_002a);
    assert_eq!(Header::mark_thread_blocking(0x8000_0001_0000_002a), 0x0000_0001_0000_002a);
    assert_eq!(Header::unmark_thread_blocking(0x0000_0001_0000_002a), 0x8000_0001_0000_002a);
    assert!(Header::is_occupied(0x8000_0000_0000_002a));
    assert!(!Header::is_occupied(0x0000_0000_0000_002a));
    assert!(Header::is_write_locked(0x7fff_ffff_0000_002a));
    assert!(!Header::is_write_locked(0x8000_0001_0000_002a));
    assert!(Header::has_thread_blocking(0x0000_0001_0000_002a));
    assert!(!Header::has_thread_blocking(0x8000_0001_0000_002a));
}

#[test]
fn read_locking_an_observed_word() {
    let unlocked = Header::occupied_unlocked_bits(7);
    assert_eq!(
        Header::lock_read_with_current(7, unlocked),
        ReadStep::Exchange(0x8000_0001_0000_0007)
    );
    assert_eq!(Header::lock_read_with_current(8, unlocked), ReadStep::Mismatch);
    assert_eq!(
        Header::lock_read_with_current(7, Header::write_locked_bits(7)),
        ReadStep::WriteLocked
    );
    let full = unlocked + ((MAX_CONCURRENT_READS as u64) << 32);
    assert_eq!(Header::lock_read_with_current(7, full), ReadStep::TooManyReaders);
    assert_eq!(
        Header::lock_read_with_current(7, full - (1 << 32)),
        ReadStep::Exchange(full)
    );
}

#[test]
fn blocking_for_a_read_lock() {
    let write_locked = Header::write_locked_bits(7);
    let unlocked = Header::occupied_unlocked_bits(7);
    assert_eq!(Header::lock_read_choice(7, write_locked), BlockChoice::Block(write_locked));
    assert_eq!(
        Header::lock_read_choice(8, write_locked),
        BlockChoice::DontBlock(ReadResponse::Mismatch)
    );
    assert_eq!(
        Header::lock_read_choice(7, unlocked),
        BlockChoice::DontBlock(ReadResponse::Matched(unlocked))
    );
}

#[test]
fn read_unlocking_an_observed_word() {
    assert_eq!(
        Header::unlock_read_with_current(7, 0x8000_0002_0000_0007),
        (0x8000_0001_0000_0007, false)
    );
    assert_eq!(
        Header::unlock_read_with_current(7, 0x8000_0001_0000_0007),
        (0x8000_0000_0000_0007, false)
    );
    assert_eq!(
        Header::unlock_read_with_current(7, 0x0000_0002_0000_0007),
        (0x0000_0001_0000_0007, false)
    );
    assert_eq!(
        Header::unlock_read_with_current(7, 0x0000_0001_0000_0007),
        (0x8000_0000_0000_0007, true)
    );
}

#[test]
fn failed_exchanges_of_an_observed_word() {
    let expected = Header::occupied_unlocked_bits(7);
    let locked = Header::write_locked_bits(7);
    let other = Header::occupied_unlocked_bits(8);
    assert_eq!(Header::transition_with_actual(expected, locked), TransitionStep::Locked);
    assert_eq!(Header::transition_with_actual(expected, other), TransitionStep::Mismatch);
    assert_eq!(Header::transition_with_actual(expected, expected), TransitionStep::Retry);
    assert_eq!(Header::transition_choice(expected, locked), BlockChoice::Block(locked));
    assert_eq!(Header::transition_choice(expected, other), BlockChoice::DontBlock(false));
}

#[test]
fn a_reader_waits_for_the_writer() {
    let mut header = Header::new();
    let id = header.occupy();
    header.lock_write(id, DontBlock).unwrap();
    assert_eq!(header.poll_lock_read(id, BlockIndefinitely), ParkChoice::Park);
    assert!(header.unlock_write(id));
    assert_eq!(header.poll_lock_read(id, BlockIndefinitely), ParkChoice::DontPark(Ok(true)));
    assert!(!header.unlock_read(id));
}

#[test]
fn a_writer_waits_for_the_last_reader() {
    let mut header = Header::new();
    let id = header.occupy();
    header.lock_read(id, DontBlock).unwrap();
    header.lock_read(id, DontBlock).unwrap();
    assert_eq!(header.poll_lock_write(id, BlockIndefinitely), ParkChoice::Park);
    assert!(!header.unlock_read(id));
    assert!(header.unlock_read(id));
    assert_eq!(header.poll_lock_write(id, BlockIndefinitely), ParkChoice::DontPark(Ok(true)));
    assert!(!header.unlock_write(id));
}

#[test]
fn waiting_is_in_vain_after_a_locked_removal() {
    let mut header = Header::new();
    let id = header.occupy();
    header.lock_write(id, DontBlock).unwrap();
    assert_eq!(header.poll_lock_write(id, BlockIndefinitely), ParkChoice::Park);
    assert!(header.remove_locked(id).must_unpark);
    assert_eq!(header.poll_lock_write(id, BlockIndefinitely), ParkChoice::DontPark(Ok(false)));
    assert_eq!(
        header.poll_remove(id, BlockIndefinitely),
        ParkChoice::DontPark(Ok(RemoveResult::DidntMatch))
    );
}

#[test]
fn nobody_waits_who_may_not_block() {
    let mut header = Header::new();
    let id = header.occupy();
    header.lock_write(id, DontBlock).unwrap();
    assert_eq!(header.poll_lock_read(id, DontBlock), ParkChoice::DontPark(Err(TimedOut)));
    assert_eq!(header.poll_lock_write(id, DontBlock), ParkChoice::DontPark(Err(TimedOut)));
    assert!(!header.unlock_write(id));
}

#[test]
fn waiting_alone_times_out() {
    let mut header = Header::new();
    let id = header.occupy();
    let timeout = BlockUntil(Instant { nanos: 5 });
    header.lock_read(id, DontBlock).unwrap();
    assert_eq!(header.lock_write(id, timeout), Err(TimedOut));
    assert_eq!(header.remove(id, timeout), Err(TimedOut));
    assert!(header.unlock_read(id));
    assert_eq!(header.lock_write(id, timeout), Ok(true));
}

#[test]
fn unlocking_undoes_locking() {
    let mut header = Header::new();
    let id = header.occupy();
    for _ in 0..3 {
        header.lock_read(id, DontBlock).unwrap();
    }
    assert!(!header.may_drop());
    for _ in 0..3 {
        header.unlock_read(id);
    }
    assert!(header.may_drop());
    header.lock_write(id, DontBlock).unwrap();
    assert!(!header.may_drop());
    header.unlock_write(id);
    assert!(header.may_drop());
    assert!(!header.has_too_many_readers(id));
}

#[test]
fn concluding_a_choice() {
    let waiting: ParkChoice<BlockResult<bool>> = ParkChoice::Park;
    assert!(waiting.must_sleep());
    assert_eq!(Park::<u64>::park(waiting, Some(Wakeup::Unparked)), ParkResult::Waited);
    let waiting: ParkChoice<BlockResult<bool>> = ParkChoice::Park;
    assert_eq!(Park::<u64>::park(waiting, Some(Wakeup::DeadlinePassed)), ParkResult::TimedOut);
    let done: ParkChoice<BlockResult<bool>> = ParkChoice::DontPark(Ok(true));
    assert!(!done.must_sleep());
    assert_eq!(Park::<u64>::park(done, None), ParkResult::DidntPark(Ok(true)));

    assert_eq!(Header::block(ParkResult::<BlockResult<bool>>::Waited), None);
    assert_eq!(
        Header::block(ParkResult::<BlockResult<bool>>::TimedOut),
        Some(Err(TimedOut))
    );
    assert_eq!(
        Header::block(ParkResult::<BlockResult<bool>>::DidntPark(Ok(true))),
        Some(Ok(true))
    );
}
