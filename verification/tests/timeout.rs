use read_write_store::{Instant, Timeout};

const NANOS_PER_SEC: u128 = 1_000_000_000;

#[test]
fn ordering_is_correct() {
    let now = Instant { nanos: 17 * NANOS_PER_SEC };

    let in_the_future = Timeout::BlockUntil(Instant { nanos: now.nanos + NANOS_PER_SEC });
    let in_the_past = Timeout::BlockUntil(Instant { nanos: now.nanos - NANOS_PER_SEC });

    let mut timeouts = vec![
        Timeout::BlockIndefinitely,
        in_the_future,
        in_the_past,
        Timeout::DontBlock,
    ];

    timeouts.sort();

    assert_eq!(
        timeouts,
        vec![
            Timeout::DontBlock,
            in_the_past,
            in_the_future,
            Timeout::BlockIndefinitely,
        ]
    );
}

#[test]
fn partial_and_total_order_agree() {
    let timeouts = vec![
        Timeout::DontBlock,
        Timeout::BlockUntil(Instant { nanos: 0 }),
        Timeout::BlockUntil(Instant { nanos: 1 }),
        Timeout::BlockIndefinitely,
    ];
    for (i, a) in timeouts.iter().enumerate() {
        for (j, b) in timeouts.iter().enumerate() {
            assert_eq!(a.partial_cmp(b), Some(i.cmp(&j)));
            assert_eq!(a.cmp(b), i.cmp(&j));
        }
    }
}

#[test]
fn block_for_adds_to_the_current_time() {
    let now = Instant { nanos: 5 };
    assert_eq!(
        Timeout::block_for(now, NANOS_PER_SEC),
        Timeout::BlockUntil(Instant { nanos: 1_000_000_005 })
    );
    assert!(Timeout::BlockUntil(now) < Timeout::block_for(now, NANOS_PER_SEC));
}

#[test]
fn block_for_millis_adds_to_the_current_time() {
    let now = Instant { nanos: 5 };
    assert_eq!(
        Timeout::block_for_millis(now, 1000),
        Timeout::BlockUntil(Instant { nanos: 1_000_000_005 })
    );
    assert!(Timeout::BlockUntil(now) < Timeout::block_for_millis(now, 1000));
}

#[test]
fn only_blocking_until_some_time_has_a_deadline() {
    let deadline = Instant { nanos: 9 };
    assert_eq!(Timeout::DontBlock.deadline(), None);
    assert_eq!(Timeout::BlockUntil(deadline).deadline(), Some(deadline));
    assert_eq!(Timeout::BlockIndefinitely.deadline(), None);
}
