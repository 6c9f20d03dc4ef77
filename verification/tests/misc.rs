use std::time::{Duration, Instant};

use frankenrust::callbacks::log::{Level, LogOnce};
use frankenrust::callbacks::misc::{
    go_is_context_done, go_mercure_publish, go_putenv, go_schedule_opcache_reset,
    mercure_publish_notice, opcache_reset_notice, putenv_notice, Notices,
};
use frankenrust::context::{CompletionSignal, ContextSlots, RequestContext};

fn fresh_context() -> RequestContext {
    RequestContext::new(String::new(), None, None, CompletionSignal::none())
}

#[test]
fn go_is_context_done_is_true_with_no_context_installed() {
    assert!(go_is_context_done(&ContextSlots::new(), 1));
}

#[test]
fn go_is_context_done_is_false_for_a_live_context() {
    let mut slots = ContextSlots::new();
    slots.set(2, fresh_context());
    assert!(!go_is_context_done(&slots, 2));
}

#[test]
fn go_is_context_done_is_true_once_the_context_is_marked_done() {
    let mut slots = ContextSlots::new();
    slots.set(3, fresh_context());
    slots.context_mut(3).expect("just set").close_context();
    assert!(go_is_context_done(&slots, 3));
}

#[test]
fn go_putenv_returns_true() {
    assert!(go_putenv(&mut Notices::new(), &mut Vec::new()));
}

#[test]
fn putenv_notice_logs_exactly_once_across_repeated_calls() {
    let mut once = LogOnce::new();
    let mut records = Vec::new();
    let results = [
        putenv_notice(&mut once, &mut records),
        putenv_notice(&mut once, &mut records),
        putenv_notice(&mut once, &mut records),
    ];

    assert_eq!(results, [true, true, true]);
    assert_eq!(records.len(), 1, "got {records:?}");
    assert_eq!(records[0].level, Level::warn());
    assert!(records[0].message.starts_with(b"putenv() was called, but"));
}

#[test]
fn go_schedule_opcache_reset_returns_promptly() {
    let start = Instant::now();
    go_schedule_opcache_reset(&mut Notices::new(), &mut Vec::new());
    assert!(
        start.elapsed() < Duration::from_secs(1),
        "go_schedule_opcache_reset must not block the calling PHP thread"
    );
}

#[test]
fn opcache_reset_notice_logs_exactly_once_across_repeated_calls() {
    let mut once = LogOnce::new();
    let mut records = Vec::new();
    for _ in 0..3 {
        opcache_reset_notice(&mut once, &mut records);
    }

    assert_eq!(records.len(), 1, "got {records:?}");
    assert_eq!(records[0].level, Level::warn());
}

#[test]
fn go_mercure_publish_returns_the_out_of_scope_sentinel() {
    let result = go_mercure_publish(&mut Notices::new(), &mut Vec::new());

    assert!(result.id.is_none());
    assert_eq!(result.status, 3);
}

#[test]
fn go_mercure_publish_returns_the_not_built_sentinel_not_a_fabricated_success() {
    let result = go_mercure_publish(&mut Notices::new(), &mut Vec::new());

    assert!(result.id.is_none());
    assert_eq!(result.status, 3);
}

#[test]
fn mercure_publish_notice_logs_exactly_once_across_repeated_calls() {
    let mut once = LogOnce::new();
    let mut records = Vec::new();
    let results = [
        mercure_publish_notice(&mut once, &mut records),
        mercure_publish_notice(&mut once, &mut records),
        mercure_publish_notice(&mut once, &mut records),
    ];

    for result in &results {
        assert!(result.id.is_none());
        assert_eq!(result.status, 3);
    }
    assert_eq!(records.len(), 1, "got {records:?}");
    assert_eq!(records[0].level, Level::warn());
}

#[test]
fn every_callback_in_this_module_tolerates_no_current_request() {
    let mut notices = Notices::new();
    let mut records = Vec::new();

    assert!(go_is_context_done(&ContextSlots::new(), 4));
    assert!(go_putenv(&mut notices, &mut records));
    go_schedule_opcache_reset(&mut notices, &mut records);

    let result = go_mercure_publish(&mut notices, &mut records);
    assert!(result.id.is_none());
    assert_eq!(result.status, 3);
    assert_eq!(records.len(), 3);
}
