use frankenrust::callbacks::input::{go_apache_request_headers, go_read_cookies, go_read_post};
use frankenrust::context::{
    BodySource, BufferedBody, CompletionSignal, ContextSlots, FlushError, IoFailure, Request,
    RequestBody, RequestContext, ResponseSink,
};

fn fresh_context() -> RequestContext {
    RequestContext::new(String::new(), None, None, CompletionSignal::none())
}

fn context_with_request(request: Request) -> RequestContext {
    RequestContext::new(String::new(), None, Some(request), CompletionSignal::none())
}

struct FakeSink;

impl ResponseSink for FakeSink {
    fn write(&mut self, buf: &[u8]) -> Result<usize, IoFailure> {
        Ok(buf.len())
    }

    fn add_header(&mut self, _name: &str, _value: &[u8]) {}

    fn clear_headers(&mut self) {}

    fn write_status(&mut self, _status: u16) {}

    fn flush(&mut self) -> Result<(), FlushError> {
        Ok(())
    }
}

#[test]
fn go_read_post_with_no_context_returns_zero() {
    assert_eq!(go_read_post(&mut ContextSlots::new(), 120, 8).len(), 0);
}

#[test]
fn go_read_post_with_no_sink_returns_zero() {
    let mut slots = ContextSlots::new();
    let mut request = Request::new("POST", b"/".to_vec());
    request.body = RequestBody::new(Box::new(BufferedBody::new(b"hello".to_vec())));
    slots.set(121, context_with_request(request));

    assert_eq!(go_read_post(&mut slots, 121, 8).len(), 0);
}

struct OneByteAtATime(Vec<u8>);

impl BodySource for OneByteAtATime {
    fn read(&mut self, _limit: usize) -> Result<Vec<u8>, IoFailure> {
        if self.0.is_empty() {
            return Ok(Vec::new());
        }
        Ok(vec![self.0.remove(0)])
    }
}

#[test]
fn go_read_post_fills_the_buffer_completely_from_a_one_byte_source() {
    let mut slots = ContextSlots::new();
    let mut request = Request::new("POST", b"/".to_vec());
    request.body = RequestBody::new(Box::new(OneByteAtATime(b"hello world".to_vec())));
    let mut ctx = context_with_request(request);
    ctx.response_sink = Some(Box::new(FakeSink));
    slots.set(122, ctx);

    assert_eq!(go_read_post(&mut slots, 122, 0), b"");
    assert_eq!(
        go_read_post(&mut slots, 122, 11),
        b"hello world",
        "must loop until the buffer is full, not stop at one byte"
    );
    assert_eq!(go_read_post(&mut slots, 122, 11), b"");
}

#[test]
fn go_read_cookies_with_no_context_returns_null() {
    assert!(go_read_cookies(&ContextSlots::new(), 123).is_none());
}

#[test]
fn go_read_cookies_with_no_request_returns_null() {
    let mut slots = ContextSlots::new();
    slots.set(124, fresh_context());
    assert!(go_read_cookies(&slots, 124).is_none());
}

#[test]
fn go_read_cookies_joins_multiple_cookie_headers_with_semicolon_space() {
    let mut slots = ContextSlots::new();
    let request = Request::new("GET", b"/".to_vec())
        .with_header("Cookie", b"a=1".to_vec())
        .with_header("Cookie", b"b=2".to_vec());
    slots.set(128, context_with_request(request));

    assert_eq!(go_read_cookies(&slots, 128), Some(b"a=1; b=2".to_vec()));
}

#[test]
fn go_read_cookies_strips_embedded_nul_bytes() {
    let mut slots = ContextSlots::new();
    let request = Request::new("GET", b"/".to_vec()).with_header("Cookie", b"a=\x001".to_vec());
    slots.set(129, context_with_request(request));

    assert_eq!(go_read_cookies(&slots, 129), Some(b"a=1".to_vec()));
}

#[test]
fn cookies_of_nuls_alone_are_empty_but_there() {
    let mut slots = ContextSlots::new();
    let request = Request::new("GET", b"/".to_vec()).with_header("Cookie", b"\0\0".to_vec());
    slots.set(0, context_with_request(request));

    assert_eq!(go_read_cookies(&slots, 0), Some(Vec::new()));
}

#[test]
fn go_read_cookies_with_no_cookie_header_returns_null() {
    let mut slots = ContextSlots::new();
    slots.set(130, context_with_request(Request::new("GET", b"/".to_vec())));

    assert!(go_read_cookies(&slots, 130).is_none());
}

#[test]
fn go_read_cookies_with_a_single_empty_cookie_value_returns_null() {
    let mut slots = ContextSlots::new();
    let request = Request::new("GET", b"/".to_vec()).with_header("Cookie", Vec::new());
    slots.set(131, context_with_request(request));

    assert!(go_read_cookies(&slots, 131).is_none());
}

#[test]
fn go_apache_request_headers_with_no_context_returns_null_and_zero() {
    let mut slots = ContextSlots::new();
    assert!(go_apache_request_headers(&mut slots, 125, &mut Vec::new()).is_none());
}

#[test]
fn go_apache_request_headers_with_no_sink_returns_null_and_zero() {
    let mut slots = ContextSlots::new();
    let request = Request::new("GET", b"/".to_vec()).with_header("X-Foo", b"bar".to_vec());
    slots.set(126, context_with_request(request));

    assert!(go_apache_request_headers(&mut slots, 126, &mut Vec::new()).is_none());
}

#[test]
fn go_apache_request_headers_layout_is_pair_count_with_2n_entries_and_joins_repeats() {
    let mut slots = ContextSlots::new();
    let request = Request::new("GET", b"/".to_vec())
        .with_header("X-Multi", b"one".to_vec())
        .with_header("X-Multi", b"two".to_vec())
        .with_header("X-Single", b"solo".to_vec());
    let mut ctx = context_with_request(request);
    ctx.response_sink = Some(Box::new(FakeSink));
    ctx.arena.allocate(b"before");
    slots.set(127, ctx);

    let entries = go_apache_request_headers(&mut slots, 127, &mut Vec::new()).unwrap();
    assert_eq!(entries.len(), 2, "two distinct header names were installed");

    let arena = &slots.context(127).unwrap().arena;
    assert_eq!(arena.get(entries[0].name), Some(b"X-Multi\0".as_slice()));
    assert_eq!(
        arena.get(entries[0].value),
        Some(b"one, two\0".as_slice()),
        "a repeated header must join its values with \", \""
    );
    assert_eq!(arena.get(entries[1].name), Some(b"X-Single\0".as_slice()));
    assert_eq!(arena.get(entries[1].value), Some(b"solo\0".as_slice()));
    assert_eq!(entries[1].name, 3);
}
