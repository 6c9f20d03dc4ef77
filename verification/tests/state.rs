use frankenrust::state::{is_among, SafeChange, State, ThreadState, UnixTime, Wait};

fn after_epoch_millis(millis: u64) -> UnixTime {
    UnixTime {
        before_epoch: false,
        secs: millis / 1_000,
        nanos: (millis % 1_000) as u32 * 1_000_000,
    }
}

fn ticket_of(wait: Wait) -> u64 {
    match wait {
        Wait::Pending(ticket) => ticket,
        Wait::Reached => panic!("there is something to wait for"),
    }
}

#[test]
fn every_state_has_the_upstream_discriminant_and_name() {
    let cases = [
        (State::Reserved, 0, "reserved"),
        (State::Booting, 1, "booting"),
        (State::BootRequested, 2, "boot requested"),
        (State::ShuttingDown, 3, "shutting down"),
        (State::Done, 4, "done"),
        (State::Inactive, 5, "inactive"),
        (State::Ready, 6, "ready"),
        (State::TransitionRequested, 7, "transition requested"),
        (State::TransitionInProgress, 8, "transition in progress"),
        (State::TransitionComplete, 9, "transition complete"),
        (State::Rebooting, 10, "rebooting"),
        (State::ForceRebooting, 11, "rebooting (force)"),
        (State::RebootReady, 12, "reboot ready"),
        (State::YieldingForReboot, 13, "yielding for reboot"),
    ];
    let mut state = ThreadState::new();

    for (value, discriminant, name) in cases {
        state.set(value);
        assert_eq!(value as u8, discriminant);
        assert_eq!(value.name(), name);
        assert_eq!(state.name(), name);
    }
}

#[test]
fn compare_and_swap_changes_only_a_matching_state() {
    let mut state = ThreadState::new();
    let ticket = ticket_of(state.wait_for(&[State::Ready]));

    assert!(!state.compare_and_swap(State::Booting, State::Ready));
    assert_eq!(state.get(), State::Reserved);
    assert_eq!(state.subscribers.len(), 1);
    assert!(state.is_pending(ticket));
    assert!(state.compare_and_swap(State::Reserved, State::Ready));
    assert!(!state.is_pending(ticket));
    assert_eq!(state.get(), State::Ready);
}

#[test]
fn wait_for_returns_immediately_for_an_existing_target_state() {
    let mut state = ThreadState::new();
    state.set(State::Ready);
    assert_eq!(
        state.wait_for(&[State::Inactive, State::Ready]),
        Wait::Reached
    );
    assert!(state.subscribers.is_empty());
}

#[test]
fn a_waiter_is_woken_by_set() {
    let mut state = ThreadState::new();
    let ticket = ticket_of(state.wait_for(&[State::Ready]));
    assert!(state.is_pending(ticket));
    state.set(State::Ready);
    assert!(!state.is_pending(ticket));
    assert!(state.is(State::Ready));
}

#[test]
fn one_transition_wakes_every_matching_waiter() {
    const WAITER_COUNT: usize = 8;

    let mut state = ThreadState::new();
    let tickets: Vec<u64> = (0..WAITER_COUNT)
        .map(|_| ticket_of(state.wait_for(&[State::Inactive])))
        .collect();
    assert_eq!(state.subscribers.len(), WAITER_COUNT);

    state.set(State::Inactive);

    assert!(tickets.iter().all(|ticket| !state.is_pending(*ticket)));
    assert!(state.subscribers.is_empty());
}

#[test]
fn waiter_for_two_states_ignores_other_transitions() {
    let mut state = ThreadState::new();
    state.set(State::Booting);
    let ticket = ticket_of(state.wait_for(&[State::Ready, State::Inactive]));

    state.set(State::TransitionComplete);
    assert!(state.is_pending(ticket));
    assert_eq!(state.subscribers.len(), 1);

    state.set(State::Inactive);
    assert!(!state.is_pending(ticket));
}

#[test]
fn overlapping_subscribers_are_compacted_like_upstream() {
    let mut state = ThreadState::new();
    state.set(State::Booting);

    let first = ticket_of(state.wait_for(&[State::Inactive]));
    let second = ticket_of(state.wait_for(&[State::Inactive, State::ShuttingDown]));
    let third = ticket_of(state.wait_for(&[State::ShuttingDown]));
    assert_eq!(state.subscribers.len(), 3);

    state.set(State::Inactive);
    assert_eq!(state.subscribers.len(), 1);
    assert!(!state.is_pending(first));
    assert!(!state.is_pending(second));
    assert!(state.is_pending(third));

    assert!(state.compare_and_swap(State::Inactive, State::ShuttingDown));
    assert_eq!(state.subscribers.len(), 0);
}

#[test]
fn two_sides_yield_to_each_other() {
    let mut state = ThreadState::new();
    state.set(State::Booting);
    let worker = ticket_of(state.wait_for(&[State::Inactive]));

    state.set(State::Inactive);
    let setter = ticket_of(state.wait_for(&[State::Ready]));
    assert!(!state.is_pending(worker));
    assert!(state.is(State::Inactive));

    state.set(State::Ready);
    assert!(!state.is_pending(setter));
    assert!(state.is(State::Ready));
}

#[test]
fn timed_out_waiter_removes_its_subscriber() {
    let mut state = ThreadState::new();
    let ticket = ticket_of(state.wait_for(&[State::Ready]));

    assert_eq!(state.wait_for_state_with_timeout(ticket, false), None);
    assert_eq!(
        state.wait_for_state_with_timeout(ticket, true),
        Some(false)
    );
    assert!(state.subscribers.is_empty());
}

#[test]
fn a_state_that_came_in_time_counts_even_when_the_time_is_up() {
    let mut state = ThreadState::new();
    let ticket = ticket_of(state.wait_for(&[State::Ready]));
    state.set(State::Ready);
    state.set(State::Done);
    assert_eq!(state.wait_for_state_with_timeout(ticket, true), Some(true));
}

#[test]
fn safe_state_change_rejects_done_and_accepts_ready() {
    let mut state = ThreadState::new();
    state.set(State::Done);
    assert_eq!(
        state.request_safe_state_change(State::Rebooting),
        SafeChange::Rejected
    );
    assert_eq!(state.get(), State::Done);

    state.set(State::Ready);
    assert_eq!(
        state.request_safe_state_change(State::TransitionRequested),
        SafeChange::Accepted
    );
    assert_eq!(state.get(), State::TransitionRequested);
}

#[test]
fn safe_state_change_waits_until_the_state_is_stable() {
    let mut state = ThreadState::new();
    state.set(State::Booting);
    let ticket = match state.request_safe_state_change(State::TransitionRequested) {
        SafeChange::Later(ticket) => ticket,
        other => panic!("{other:?}"),
    };
    assert!(state.is_pending(ticket));

    state.set(State::Ready);
    assert!(!state.is_pending(ticket));

    assert_eq!(
        state.request_safe_state_change(State::TransitionRequested),
        SafeChange::Accepted
    );
    assert_eq!(state.get(), State::TransitionRequested);
}

#[test]
fn safe_state_change_wakes_for_reserved_then_rejects_it() {
    let mut state = ThreadState::new();
    state.set(State::Booting);
    let ticket = match state.request_safe_state_change(State::TransitionRequested) {
        SafeChange::Later(ticket) => ticket,
        other => panic!("{other:?}"),
    };

    state.set(State::Reserved);
    assert!(!state.is_pending(ticket));

    assert_eq!(
        state.request_safe_state_change(State::TransitionRequested),
        SafeChange::Rejected
    );
    assert_eq!(state.get(), State::Reserved);
}

#[test]
fn setting_the_same_value_still_notifies_subscribers() {
    let mut state = ThreadState::new();
    let ticket = ticket_of(state.wait_for(&[State::Ready]));
    state.current = State::Ready;

    state.set(State::Ready);

    assert!(!state.is_pending(ticket));
    assert!(state.subscribers.is_empty());
}

#[test]
fn waiting_timestamp_preserves_elapsed_and_future_signs() {
    let now = after_epoch_millis(1_700_000_000_000);
    let mut state = ThreadState::new();
    assert!(!state.is_in_waiting_state());
    assert_eq!(state.wait_time(now), 0);

    state.mark_as_waiting(true, now);
    assert!(state.is_in_waiting_state());
    state.mark_as_waiting(false, now);
    assert!(!state.is_in_waiting_state());
    assert_eq!(state.wait_time(now), 0);

    state.set_wait_time(after_epoch_millis(1_700_000_000_000 - 2_000));
    assert_eq!(state.wait_time(now), 2_000);

    state.set_wait_time(after_epoch_millis(1_700_000_000_000 + 2_000));
    assert_eq!(state.wait_time(now), -2_000);

    state.set_wait_time(UnixTime {
        before_epoch: true,
        secs: 0,
        nanos: 500_000,
    });
    assert_eq!(state.waiting_since, -1);
}

#[test]
fn membership_is_by_value() {
    assert!(is_among(State::Done, &[State::Ready, State::Done]));
    assert!(!is_among(State::Done, &[State::Ready]));
    assert!(!is_among(State::Done, &[]));
}
