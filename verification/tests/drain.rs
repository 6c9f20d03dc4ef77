use crossbeam_channel::TryRecvError;
use frankenrust::drain::{ClosedDrainGeneration, DrainChannel};

#[test]
fn drain_channel_receiver_survives_the_close_reopen_window() {
    let mut drain = DrainChannel::new();
    let generation_before_close = drain.receiver().generation();

    let closed = drain
        .close()
        .expect("a fresh generation has an open sender to close");

    let receiver_during_window = drain.receiver();
    assert_eq!(receiver_during_window.generation(), generation_before_close);
    assert_eq!(
        receiver_during_window.receiver().try_recv(),
        Err(TryRecvError::Disconnected),
        "a receiver fetched inside the close/reopen window must observe the close"
    );

    drain.reopen(closed);
    let receiver_after_reopen = drain.receiver();
    assert_ne!(
        receiver_after_reopen.generation(),
        generation_before_close,
        "reopen must start a strictly newer generation"
    );
    assert_eq!(
        receiver_after_reopen.receiver().try_recv(),
        Err(TryRecvError::Empty),
        "the reopened generation must not inherit the previous close"
    );
}

#[test]
fn drain_channel_close_is_one_shot_per_generation() {
    let mut drain = DrainChannel::new();
    assert!(drain.close().is_some());
    assert!(
        drain.close().is_none(),
        "a second close before reopen must find no sender left to take"
    );
}

#[test]
fn a_generation_that_is_over_reopens_nothing() {
    let mut drain = DrainChannel::new();
    drain.reopen(ClosedDrainGeneration { generation: 0 });
    assert_eq!(drain.receiver().generation(), 0);

    assert!(drain.close().is_some());
    drain.reopen(ClosedDrainGeneration { generation: 7 });
    assert_eq!(
        drain.receiver().receiver().try_recv(),
        Err(TryRecvError::Disconnected)
    );
    drain.reopen(ClosedDrainGeneration { generation: 0 });
    assert_eq!(drain.receiver().generation(), 1);
    assert_eq!(
        drain.receiver().receiver().try_recv(),
        Err(TryRecvError::Empty)
    );
}

#[test]
fn a_renewed_channel_ends_the_receivers_before_it() {
    let mut drain = DrainChannel::new();
    let before = drain.receiver();
    let copy = before.clone();
    drain.renew();
    let after = drain.receiver();
    assert_eq!(before.receiver().try_recv(), Err(TryRecvError::Disconnected));
    assert_eq!(copy.receiver().try_recv(), Err(TryRecvError::Disconnected));
    assert_eq!(after.receiver().try_recv(), Err(TryRecvError::Empty));
    assert!(!before.receiver().same_channel(after.receiver()));
    assert!(before.receiver().same_channel(copy.receiver()));
}
