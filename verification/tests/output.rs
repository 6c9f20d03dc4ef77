use std::sync::atomic::{AtomicUsize, Ordering};
use std::sync::{Arc, Mutex};

use frankenrust::callbacks::log::Level;
use frankenrust::callbacks::output::{
    clamp_status, go_sapi_flush, go_ub_write, go_write_headers, split_header,
};
use frankenrust::callbacks::worker::go_frankenphp_finish_php_request;
use frankenrust::context::{
    CompletionSignal, ContextSlots, FlushError, IoFailure, Request, RequestContext, ResponseSink,
};
use frankenrust::headers::Headers;

fn fresh_context() -> RequestContext {
    RequestContext::new(String::new(), None, None, CompletionSignal::none())
}

fn context_with_request() -> RequestContext {
    RequestContext::new(
        String::new(),
        None,
        Some(Request::new("GET", b"/".to_vec())),
        CompletionSignal::none(),
    )
}

#[derive(Default)]
struct FakeSinkState {
    writes: Vec<Vec<u8>>,
    header_adds: Vec<(String, Vec<u8>)>,
    headers: Headers,
    statuses: Vec<u16>,
    flush_calls: usize,
}

struct FakeSink {
    state: Arc<Mutex<FakeSinkState>>,
    next_write: Option<Result<usize, IoFailure>>,
    next_flush: Option<Result<(), FlushError>>,
}

impl FakeSink {
    fn new() -> (Self, Arc<Mutex<FakeSinkState>>) {
        let state = Arc::new(Mutex::new(FakeSinkState::default()));
        (
            Self {
                state: Arc::clone(&state),
                next_write: None,
                next_flush: None,
            },
            state,
        )
    }
}

impl ResponseSink for FakeSink {
    fn write(&mut self, buf: &[u8]) -> Result<usize, IoFailure> {
        self.state.lock().unwrap().writes.push(buf.to_vec());
        self.next_write.take().unwrap_or(Ok(buf.len()))
    }

    fn add_header(&mut self, name: &str, value: &[u8]) {
        let mut state = self.state.lock().unwrap();
        state.header_adds.push((name.to_string(), value.to_vec()));
        state.headers.insert(name, value.to_vec());
    }

    fn clear_headers(&mut self) {
        self.state.lock().unwrap().headers.clear();
    }

    fn write_status(&mut self, status: u16) {
        self.state.lock().unwrap().statuses.push(status);
    }

    fn flush(&mut self) -> Result<(), FlushError> {
        self.state.lock().unwrap().flush_calls += 1;
        self.next_flush.take().unwrap_or(Ok(()))
    }
}

#[test]
fn split_header_with_no_colon_is_none() {
    assert_eq!(split_header(b"NoColonHere"), None);
}

#[test]
fn split_header_with_leading_colon_is_none() {
    assert_eq!(split_header(b":value"), None);
}

#[test]
fn split_header_skips_leading_spaces_in_the_value() {
    assert_eq!(
        split_header(b"X-Foo:   value"),
        Some((b"X-Foo".as_slice(), b"value".as_slice()))
    );
}

#[test]
fn split_header_only_skips_spaces_not_other_whitespace() {
    assert_eq!(
        split_header(b"X-Foo:\tvalue"),
        Some((b"X-Foo".as_slice(), b"\tvalue".as_slice()))
    );
}

#[test]
fn split_header_empty_value() {
    assert_eq!(
        split_header(b"X-Foo:"),
        Some((b"X-Foo".as_slice(), b"".as_slice()))
    );
    assert_eq!(
        split_header(b"X-Foo:   "),
        Some((b"X-Foo".as_slice(), b"".as_slice())),
        "trailing spaces after the colon must also collapse to an empty value"
    );
}

#[test]
fn split_header_value_may_be_non_utf8() {
    let raw: &[u8] = b"X-Foo: \xff\xfe";
    assert_eq!(
        split_header(raw),
        Some((b"X-Foo".as_slice(), b"\xff\xfe".as_slice())),
        "a non-UTF-8 value must survive unchanged, not be replaced or rejected"
    );
}

#[test]
fn split_header_value_containing_a_colon_splits_at_the_first_one_only() {
    assert_eq!(
        split_header(b"X-Foo: a:b"),
        Some((b"X-Foo".as_slice(), b"a:b".as_slice()))
    );
}

#[test]
fn clamp_status_below_100_clamps_to_500() {
    assert_eq!(clamp_status(99), (500, true));
}

#[test]
fn clamp_status_100_is_in_range() {
    assert_eq!(clamp_status(100), (100, false));
}

#[test]
fn clamp_status_999_is_in_range() {
    assert_eq!(clamp_status(999), (999, false));
}

#[test]
fn clamp_status_above_999_clamps_to_500() {
    assert_eq!(clamp_status(1000), (500, true));
}

#[test]
fn go_ub_write_with_no_context_does_not_abort_and_reports_the_full_length() {
    let mut slots = ContextSlots::new();
    let mut records = Vec::new();
    let payload = b"hello".to_vec();
    let result = go_ub_write(&mut slots, 100, &payload, &mut records);
    assert_eq!(result.written, payload.len());
    assert!(!result.aborted);
    assert_eq!(records[0].message, b"hello");
}

#[test]
fn go_ub_write_with_no_sink_logs_and_reports_the_full_length() {
    let mut slots = ContextSlots::new();
    let mut records = Vec::new();
    slots.set(101, fresh_context());

    let payload = b"worker output".to_vec();
    let result = go_ub_write(&mut slots, 101, &payload, &mut records);

    assert_eq!(result.written, payload.len());
    assert!(!result.aborted);
    assert_eq!(records.len(), 1);
    assert_eq!(records[0].level, Level::info());
    assert_eq!(records[0].message, payload);
}

#[test]
fn go_ub_write_delivers_bytes_to_the_sink_and_returns_its_count() {
    let mut slots = ContextSlots::new();
    let mut ctx = context_with_request();
    let (sink, state) = FakeSink::new();
    ctx.response_sink = Some(Box::new(sink));
    slots.set(102, ctx);

    let payload = b"hello world".to_vec();
    let result = go_ub_write(&mut slots, 102, &payload, &mut Vec::new());

    assert_eq!(result.written, payload.len());
    assert!(!result.aborted, "a fresh context's request is never cancelled");
    assert_eq!(state.lock().unwrap().writes, vec![payload]);
}

#[test]
fn go_ub_write_reports_a_short_write() {
    let mut slots = ContextSlots::new();
    let mut ctx = context_with_request();
    let (mut sink, state) = FakeSink::new();
    sink.next_write = Some(Ok(3));
    ctx.response_sink = Some(Box::new(sink));
    slots.set(103, ctx);

    let payload = b"hello world".to_vec();
    let result = go_ub_write(&mut slots, 103, &payload, &mut Vec::new());

    assert_eq!(
        result.written, 3,
        "a short write from the sink must be reported as-is"
    );
    assert_eq!(state.lock().unwrap().writes, vec![payload]);
}

#[test]
fn a_failed_write_counts_for_nothing() {
    let mut slots = ContextSlots::new();
    let mut ctx = context_with_request();
    let (mut sink, _state) = FakeSink::new();
    sink.next_write = Some(Err(IoFailure { message: "broken pipe".to_string() }));
    ctx.response_sink = Some(Box::new(sink));
    ctx.request.as_mut().unwrap().cancelled = true;
    slots.set(0, ctx);

    let mut records = Vec::new();
    let result = go_ub_write(&mut slots, 0, b"hello", &mut records);
    assert_eq!(result.written, 0);
    assert!(result.aborted);
    assert!(records.is_empty());
}

#[test]
fn go_ub_write_after_close_context_discards_the_write_and_reports_the_cached_snapshot() {
    let mut slots = ContextSlots::new();
    let request = Request::new("GET", b"/".to_vec());
    let mut ctx =
        RequestContext::new(String::new(), None, Some(request), CompletionSignal::none());
    let (sink, state) = FakeSink::new();
    ctx.response_sink = Some(Box::new(sink));
    ctx.close_context();
    assert!(
        !ctx.client_had_closed,
        "close_context() must have snapshotted 'not closed' before this test flips it"
    );
    ctx.request.as_mut().unwrap().cancelled = true;
    assert!(
        ctx.client_has_closed(),
        "the live flag must now disagree with the cached snapshot"
    );
    slots.set(104, ctx);

    let payload = b"still writing after finish".to_vec();
    let result = go_ub_write(&mut slots, 104, &payload, &mut Vec::new());

    assert!(
        slots.context(104).unwrap().is_done,
        "close_context() must have marked the context done"
    );
    assert!(
        state.lock().unwrap().writes.is_empty(),
        "a post-finish write must be discarded, never reach the sink"
    );
    assert_eq!(
        result.written,
        payload.len(),
        "a post-finish write must report the full length, not the (discarded) sink result"
    );
    assert!(
        !result.aborted,
        "must report the CACHED client_had_closed (false), not the live, now-true flag"
    );
}

#[test]
fn go_write_headers_with_no_context_returns_true() {
    let mut slots = ContextSlots::new();
    assert!(go_write_headers(&mut slots, 105, 200, &[], &mut Vec::new()));
}

#[test]
fn go_write_headers_with_no_sink_returns_true_and_does_not_walk_headers() {
    let mut slots = ContextSlots::new();
    let mut records = Vec::new();
    slots.set(106, fresh_context());
    assert!(go_write_headers(
        &mut slots,
        106,
        0,
        &[b"X-Foo: bar".to_vec()],
        &mut records
    ));
    assert!(records.is_empty());
}

#[test]
fn go_write_headers_returns_false_when_the_request_is_already_done() {
    let mut slots = ContextSlots::new();
    let mut ctx = context_with_request();
    ctx.response_sink = Some(Box::new(FakeSink::new().0));
    ctx.close_context();
    slots.set(107, ctx);

    assert!(!go_write_headers(&mut slots, 107, 200, &[], &mut Vec::new()));
}

#[test]
fn go_write_headers_forwards_every_header_sets_status_and_clears_after_a_1xx() {
    let mut slots = ContextSlots::new();
    let mut ctx = context_with_request();
    let (sink, state) = FakeSink::new();
    ctx.response_sink = Some(Box::new(sink));
    slots.set(108, ctx);

    let lines = [
        b"Link: </style.css>; rel=preload; as=style".to_vec(),
        b"Request: 7".to_vec(),
    ];
    assert!(go_write_headers(&mut slots, 108, 103, &lines, &mut Vec::new()));

    {
        let state = state.lock().unwrap();
        assert_eq!(
            state.header_adds,
            vec![
                (
                    "Link".to_string(),
                    b"</style.css>; rel=preload; as=style".to_vec()
                ),
                ("Request".to_string(), b"7".to_vec()),
            ],
            "every element of the multi-node llist must reach the sink"
        );
        assert_eq!(
            state.headers.get_first("Link"),
            None,
            "a 1xx status must clear the sink's header map afterward"
        );
        assert_eq!(state.statuses, vec![103]);
    }

    let lines = [b"Request: 7".to_vec()];
    assert!(go_write_headers(&mut slots, 108, 200, &lines, &mut Vec::new()));

    let state = state.lock().unwrap();
    assert_eq!(state.statuses, vec![103, 200]);
    assert_eq!(
        state.headers.get_all("Request").map(<[Vec<u8>]>::len),
        Some(1),
        "Request must not accumulate a second value across the cleared 1xx"
    );
}

#[test]
fn an_unknown_status_is_replaced_and_warned_about() {
    let mut slots = ContextSlots::new();
    let mut ctx = context_with_request();
    let (sink, state) = FakeSink::new();
    ctx.response_sink = Some(Box::new(sink));
    slots.set(0, ctx);

    let mut records = Vec::new();
    let lines = [b"no colon".to_vec(), b"X-\xff: v".to_vec()];
    assert!(go_write_headers(&mut slots, 0, -5, &lines, &mut records));
    let state = state.lock().unwrap();
    assert_eq!(state.statuses, vec![500]);
    assert_eq!(
        state.header_adds,
        vec![("X-\u{fffd}".to_string(), b"v".to_vec())]
    );
    assert_eq!(records.len(), 1);
    assert_eq!(records[0].level, Level::warn());
    assert_eq!(records[0].message, b"Invalid response status code");
    assert_eq!(records[0].attrs[0].key, "status_code");
    assert_eq!(records[0].attrs[0].value, "-5");
}

#[test]
fn go_sapi_flush_with_no_context_returns_false() {
    assert!(!go_sapi_flush(&mut ContextSlots::new(), 109, &mut Vec::new()));
}

#[test]
fn go_sapi_flush_with_no_sink_returns_false() {
    let mut slots = ContextSlots::new();
    slots.set(110, fresh_context());
    assert!(!go_sapi_flush(&mut slots, 110, &mut Vec::new()));
}

#[test]
fn go_sapi_flush_calls_the_sinks_flush_and_returns_false_on_success() {
    let mut slots = ContextSlots::new();
    let mut ctx = context_with_request();
    let (sink, state) = FakeSink::new();
    ctx.response_sink = Some(Box::new(sink));
    slots.set(111, ctx);

    assert!(!go_sapi_flush(&mut slots, 111, &mut Vec::new()));
    assert_eq!(state.lock().unwrap().flush_calls, 1);
}

#[test]
fn go_sapi_flush_returns_true_only_when_closed_and_not_done() {
    let mut slots = ContextSlots::new();
    let mut request = Request::new("GET", b"/".to_vec());
    request.cancelled = true;
    let mut ctx =
        RequestContext::new(String::new(), None, Some(request), CompletionSignal::none());
    let (sink, state) = FakeSink::new();
    ctx.response_sink = Some(Box::new(sink));
    slots.set(112, ctx);

    assert!(
        go_sapi_flush(&mut slots, 112, &mut Vec::new()),
        "closed and not done must report true (client disconnected)"
    );
    assert_eq!(state.lock().unwrap().flush_calls, 0);
}

#[test]
fn go_sapi_flush_returns_false_when_closed_but_already_done() {
    let mut slots = ContextSlots::new();
    let mut request = Request::new("GET", b"/".to_vec());
    request.cancelled = true;
    let mut ctx =
        RequestContext::new(String::new(), None, Some(request), CompletionSignal::none());
    ctx.response_sink = Some(Box::new(FakeSink::new().0));
    ctx.close_context();
    slots.set(113, ctx);

    assert!(
        !go_sapi_flush(&mut slots, 113, &mut Vec::new()),
        "a done request must not report a fresh abort"
    );
}

#[test]
fn a_sink_that_cannot_flush_is_warned_about() {
    let mut slots = ContextSlots::new();
    let mut ctx = context_with_request();
    let (mut sink, _state) = FakeSink::new();
    sink.next_flush = Some(Err(FlushError::NotAFlusher));
    ctx.response_sink = Some(Box::new(sink));
    slots.set(0, ctx);

    let mut records = Vec::new();
    assert!(!go_sapi_flush(&mut slots, 0, &mut records));
    assert_eq!(records.len(), 1);
    assert_eq!(records[0].level, Level::warn());

    let mut ctx = context_with_request();
    let (mut sink, _state) = FakeSink::new();
    sink.next_flush = Some(Err(FlushError::Io(IoFailure { message: "x".to_string() })));
    ctx.response_sink = Some(Box::new(sink));
    slots.set(0, ctx);
    assert!(!go_sapi_flush(&mut slots, 0, &mut records));
    assert_eq!(records.len(), 1);
}

#[test]
fn finish_php_request_closes_the_context_fires_the_signal_once_and_leaves_the_slot_installed() {
    let mut slots = ContextSlots::new();
    let fire_count = Arc::new(AtomicUsize::new(0));
    let counted = Arc::clone(&fire_count);
    slots.set(
        130,
        RequestContext::new(
            String::new(),
            None,
            None,
            CompletionSignal::new(move || {
                counted.fetch_add(1, Ordering::SeqCst);
            }),
        ),
    );

    go_frankenphp_finish_php_request(&mut slots, 130);
    assert_eq!(
        fire_count.load(Ordering::SeqCst),
        1,
        "the completion signal must fire exactly once"
    );
    assert!(slots.context(130).expect("still installed").is_done);

    go_frankenphp_finish_php_request(&mut slots, 130);
    assert_eq!(
        fire_count.load(Ordering::SeqCst),
        1,
        "a second finish call must not fire the signal again"
    );
    assert!(slots.context(130).is_some());
}

#[test]
fn finish_php_request_with_no_context_does_not_abort() {
    go_frankenphp_finish_php_request(&mut ContextSlots::new(), 1130);
}

#[test]
fn go_ub_write_after_finish_php_request_discards_the_write_and_reports_the_cached_snapshot() {
    let mut slots = ContextSlots::new();
    let mut ctx = context_with_request();
    let (sink, state) = FakeSink::new();
    ctx.response_sink = Some(Box::new(sink));
    slots.set(131, ctx);

    go_frankenphp_finish_php_request(&mut slots, 131);
    let ctx = slots.context_mut(131).expect("still installed");
    assert!(!ctx.client_had_closed);
    ctx.request.as_mut().unwrap().cancelled = true;

    let payload = b"still writing after finish".to_vec();
    let result = go_ub_write(&mut slots, 131, &payload, &mut Vec::new());

    assert!(
        state.lock().unwrap().writes.is_empty(),
        "a post-finish write must be discarded, never reach the sink"
    );
    assert_eq!(result.written, payload.len());
    assert!(!result.aborted);
}
