use frankenrust::context::{
    resolve_directory_index, validate_request, BodySource, BufferedBody, CompletionSignal,
    ContextSlots, IoFailure, Request, RequestArena, RequestBody, RequestContext, Scheme,
};
use frankenrust::headers::{canonical_header_name, Headers};
use std::sync::atomic::{AtomicUsize, Ordering};
use std::sync::Arc;

fn test_context(request: Option<Request>) -> RequestContext {
    RequestContext::new(String::new(), None, request, CompletionSignal::none())
}

#[test]
fn headers_lookup_is_canonicalisation_insensitive() {
    let mut headers = Headers::default();
    headers.insert("accept-ENCODING", b"gzip".to_vec());
    assert_eq!(
        headers.get_first("Accept-Encoding"),
        Some(b"gzip".as_slice()),
        "lookup must canonicalise regardless of how the name was inserted"
    );
}

#[test]
fn headers_get_first_is_the_first_value_not_a_join() {
    let mut headers = Headers::default();
    headers.insert("Content-Type", b"text/plain".to_vec());
    headers.insert("Content-Type", b"application/json".to_vec());

    assert_eq!(
        headers.get_first("Content-Type"),
        Some(b"text/plain".as_slice())
    );
    assert_eq!(
        headers.get_all("Content-Type"),
        Some([b"text/plain".to_vec(), b"application/json".to_vec()].as_slice())
    );
    assert_eq!(headers.get_first("Missing"), None);
    assert_eq!(headers.get_all("Missing"), None);
}

#[test]
fn headers_present_but_empty_is_some_empty() {
    let mut headers = Headers::default();
    headers.insert("Content-Length", Vec::new());
    assert_eq!(headers.get_first("Content-Length"), Some([].as_slice()));
}

#[test]
fn canonical_header_name_leaves_non_token_names_unchanged() {
    assert_eq!(canonical_header_name("accept-encoding"), "Accept-Encoding");
    assert_eq!(canonical_header_name("X-Foo_Bar"), "X-Foo_bar");

    for name in ["Foo Bar", "Foo\u{ff}Bar", "Foo:Bar", "Föo"] {
        assert_eq!(
            canonical_header_name(name),
            name,
            "non-token name {name:?} must be returned unchanged"
        );
    }
}

#[test]
fn validate_rejects_nul_byte_in_path() {
    let request = Request::new("GET", b"/foo\0bar".to_vec());
    let err = validate_request(&request).unwrap_err();
    assert_eq!(err.status, 400);
}

#[test]
fn validate_rejects_non_numeric_content_length() {
    let request =
        Request::new("POST", b"/".to_vec()).with_header("Content-Length", b"abc".to_vec());
    let err = validate_request(&request).unwrap_err();
    assert_eq!(err.status, 400);
}

#[test]
fn validate_rejects_negative_content_length() {
    let request =
        Request::new("POST", b"/".to_vec()).with_header("Content-Length", b"-1".to_vec());
    let err = validate_request(&request).unwrap_err();
    assert_eq!(err.status, 400);
}

#[test]
fn invalid_content_length_message_keeps_non_utf8_bytes() {
    let request = Request::new("POST", b"/".to_vec()).with_header("Content-Length", vec![0xff]);
    let err = validate_request(&request).unwrap_err();
    assert_eq!(err.status, 400);
    assert_eq!(err.message, r#"invalid Content-Length header: "\xff""#);

    let ascii =
        Request::new("POST", b"/".to_vec()).with_header("Content-Length", b"abc".to_vec());
    assert_eq!(
        validate_request(&ascii).unwrap_err().message,
        r#"invalid Content-Length header: "abc""#
    );

    let unassigned = Request::new("POST", b"/".to_vec())
        .with_header("Content-Length", vec![0xf0, 0xae, 0xaf, 0xb0]);
    assert_eq!(
        validate_request(&unassigned).unwrap_err().message,
        r#"invalid Content-Length header: "\U0002ebf0""#
    );
}

#[test]
fn validate_accepts_duplicate_valid_content_length_headers() {
    let request = Request::new("POST", b"/".to_vec())
        .with_header("Content-Length", b"5".to_vec())
        .with_header("Content-Length", b"5".to_vec());
    assert!(validate_request(&request).is_ok());
}

#[test]
fn validate_accepts_no_content_length_and_a_valid_one() {
    assert!(validate_request(&Request::new("GET", b"/".to_vec())).is_ok());
    assert!(validate_request(
        &Request::new("POST", b"/".to_vec()).with_header("Content-Length", b"42".to_vec())
    )
    .is_ok());
}

#[test]
fn content_length_is_the_parsed_length_not_the_header() {
    let chunked = Request::new("POST", b"/".to_vec())
        .with_header("Transfer-Encoding", b"chunked".to_vec())
        .with_content_length(-1);
    assert_eq!(chunked.content_length, -1);
    assert_eq!(chunked.headers.get_first("Content-Length"), None);
    assert!(
        validate_request(&chunked).is_ok(),
        "validate() reads the header (context.go:157), and there is none \
         to reject -- it must not reject the parsed -1 as negative"
    );

    let sized =
        Request::new("POST", b"/".to_vec()).with_header("Content-Length", b"5".to_vec());
    assert_eq!(sized.content_length, 0);
    assert_eq!(
        sized.with_content_length(5).content_length,
        5,
        "whoever builds the Request fills both in"
    );
}

#[test]
fn request_context_validate_delegates_to_the_request() {
    let ctx = test_context(Some(Request::new("GET", b"/foo\0bar".to_vec())));
    assert_eq!(ctx.validate().unwrap_err().status, 400);

    let no_request = test_context(None);
    assert!(
        no_request.validate().is_ok(),
        "a context with no request has nothing to reject"
    );
}

#[test]
fn request_uri_is_the_raw_target_verbatim_never_reconstructed() {
    let request = Request::new("GET", b"/index.php/extra".to_vec())
        .with_raw_target(b"/index.php%2Fextra?".to_vec())
        .with_query(b"".to_vec());
    let ctx = test_context(Some(request));
    assert_eq!(ctx.request_uri, b"/index.php%2Fextra?");
}

#[test]
fn request_uri_takes_raw_target_even_when_it_is_not_the_wire_bytes() {
    let re_escaped = Request::new("GET", "/café".as_bytes().to_vec())
        .with_raw_target(b"/caf%C3%A9".to_vec());
    assert_eq!(test_context(Some(re_escaped)).request_uri, b"/caf%C3%A9");

    let escape_decoded =
        Request::new("GET", b"//\"".to_vec()).with_raw_target(b"//%22".to_vec());
    assert_eq!(test_context(Some(escape_decoded)).request_uri, b"//%22");
}

#[test]
fn request_uri_is_empty_without_a_raw_target_or_a_request() {
    let ctx = test_context(Some(Request::new("GET", b"/".to_vec())));
    assert_eq!(
        ctx.request_uri, b"",
        "raw_target defaults to empty; request_uri must not silently fall back \
         to reconstructing from path + query"
    );

    let no_request = test_context(None);
    assert_eq!(no_request.request_uri, b"");
}

#[test]
fn split_path_keeps_absent_and_explicitly_empty_distinguishable() {
    let unconfigured = RequestContext::new(
        String::new(),
        None,
        Some(Request::new("GET", b"/index.php/foo".to_vec())),
        CompletionSignal::none(),
    );
    assert_eq!(
        unconfigured.split_path, None,
        "None is Go's nil: unconfigured, and the CGI layer -- not this \
         constructor -- supplies [\".php\"]"
    );

    let explicitly_empty = RequestContext::new(
        String::new(),
        Some(Vec::new()),
        Some(Request::new("GET", b"/index.php/foo".to_vec())),
        CompletionSignal::none(),
    );
    assert_eq!(
        explicitly_empty.split_path,
        Some(Vec::new()),
        "an explicit empty list is a different configuration from an \
         absent one, and must not collapse into it"
    );
    assert_ne!(
        unconfigured.split_path, explicitly_empty.split_path,
        "the two states drive different CGI splitting behaviour for the \
         same path, so they must remain distinguishable"
    );

    let configured = RequestContext::new(
        String::new(),
        Some(vec![".php".to_owned(), ".phtml".to_owned()]),
        None,
        CompletionSignal::none(),
    );
    assert_eq!(
        configured.split_path,
        Some(vec![".php".to_owned(), ".phtml".to_owned()]),
        "a configured list is stored verbatim -- normalising it is \
         WithRequestSplitPath's job, not this constructor's"
    );
}

#[test]
fn arena_handles_stay_valid_as_the_arena_grows() {
    let mut arena = RequestArena::default();
    let first = arena.allocate(b"hello");
    for i in 0..10_000 {
        arena.allocate(format!("entry-{i}").as_bytes());
    }
    assert_eq!(arena.get(first), Some(b"hello\0".as_slice()));
    assert_eq!(arena.get(10_000), Some(b"entry-9999\0".as_slice()));
    assert_eq!(arena.get(10_001), None);
}

#[test]
fn close_context_fires_the_completion_signal_exactly_once() {
    let fired = Arc::new(AtomicUsize::new(0));
    let counter = Arc::clone(&fired);
    let mut ctx = RequestContext::new(
        String::new(),
        None,
        Some(Request::new("GET", b"/index.php".to_vec())),
        CompletionSignal::new(move || {
            counter.fetch_add(1, Ordering::SeqCst);
        }),
    );

    assert_eq!(fired.load(Ordering::SeqCst), 0);
    ctx.close_context();
    assert_eq!(fired.load(Ordering::SeqCst), 1);

    ctx.close_context();
    assert_eq!(
        fired.load(Ordering::SeqCst),
        1,
        "close_context must return early once is_done, and must not fire twice"
    );
}

#[test]
fn close_context_snapshots_client_has_closed_into_client_had_closed() {
    let request = Request::new("GET", b"/index.php".to_vec());
    let mut ctx = test_context(Some(request));

    assert!(!ctx.client_has_closed());
    ctx.close_context();
    assert!(
        !ctx.client_had_closed,
        "sanity: an untouched cancellation flag must not read as closed"
    );

    let mut request = Request::new("GET", b"/index.php".to_vec());
    request.cancelled = true;
    let mut cancelled_ctx = test_context(Some(request));
    assert!(cancelled_ctx.client_has_closed());
    cancelled_ctx.close_context();
    assert!(cancelled_ctx.client_had_closed);

    assert!(!ctx.request.unwrap().cancelled);
}

#[test]
fn a_completion_signal_may_consume_what_it_captures() {
    let (tx, rx) = std::sync::mpsc::channel();
    let payload = "response ready".to_string();
    let mut ctx = RequestContext::new(
        String::new(),
        None,
        Some(Request::new("GET", b"/index.php".to_vec())),
        CompletionSignal::new(move || {
            let _ = tx.send(payload);
        }),
    );

    ctx.close_context();
    assert_eq!(rx.try_recv().unwrap(), "response ready");
}

#[test]
fn a_signal_that_nobody_waits_for_is_not_fired() {
    assert!(!CompletionSignal::none().fire());
    assert!(CompletionSignal::new(|| {}).fire());
}

#[test]
fn marking_a_request_done_keeps_its_arena() {
    let mut ctx = test_context(Some(Request::new("GET", b"/".to_vec())));
    let kept = ctx.arena.allocate(b"hello");
    ctx.close_context();
    assert!(ctx.is_done);
    assert_eq!(ctx.arena.get(kept), Some(b"hello\0".as_slice()));
}

#[test]
fn context_slots_set_get_clear_round_trip() {
    let mut slots = ContextSlots::new();
    assert!(slots.with_context(0, |ctx| ctx.is_none()));

    slots.set(0, test_context(None));
    assert!(slots.with_context(0, |ctx| ctx.is_some()));

    slots.set(5, test_context(None));
    assert!(slots.with_context(0, |ctx| ctx.is_some()));
    assert!(slots.with_context(5, |ctx| ctx.is_some()));

    slots.clear(0);
    assert!(slots.with_context(0, |ctx| ctx.is_none()));
    assert!(slots.with_context(5, |ctx| ctx.is_some()));
}

#[test]
fn context_slots_set_replaces_and_drops_previous() {
    let mut slots = ContextSlots::new();
    let alive = Arc::new(());
    let first_alive = Arc::downgrade(&alive);
    let mut first = RequestContext::new(
        String::new(),
        None,
        Some(Request::new("GET", b"/".to_vec())),
        CompletionSignal::new(move || drop(alive)),
    );
    first.arena.allocate(b"first");
    slots.set(2, first);
    assert!(first_alive.upgrade().is_some(), "sanity: still in the slot");

    slots.set(2, test_context(None));
    assert!(
        first_alive.upgrade().is_none(),
        "set() must drop (and so release the arena of) the previous context"
    );

    slots.clear(2);
    let alive = Arc::new(());
    let second_alive = Arc::downgrade(&alive);
    slots.set(
        2,
        RequestContext::new(
            String::new(),
            None,
            Some(Request::new("GET", b"/".to_vec())),
            CompletionSignal::new(move || drop(alive)),
        ),
    );
    slots.clear(2);
    assert!(
        second_alive.upgrade().is_none(),
        "clear() must drop (and so release the arena of) the context too"
    );
}

#[test]
fn a_context_can_be_changed_and_taken_out_of_its_slot() {
    let mut slots = ContextSlots::default();
    slots.set(1, test_context(None));
    let found = slots.with_context_mut(1, |ctx| {
        let ctx = ctx.unwrap();
        ctx.doc_uri = b"/x".to_vec();
        true
    });
    assert!(found);
    assert!(!slots.with_context_mut(7, |ctx| ctx.is_some()));
    assert_eq!(slots.take(1).unwrap().doc_uri, b"/x");
    assert!(slots.take(1).is_none());
    assert!(slots.take(9).is_none());
}

struct OneByteAtATime {
    bytes: Vec<u8>,
    fails_at_end: bool,
}

impl BodySource for OneByteAtATime {
    fn read(&mut self, _limit: usize) -> Result<Vec<u8>, IoFailure> {
        if self.bytes.is_empty() {
            if self.fails_at_end {
                return Err(IoFailure { message: "gone".to_string() });
            }
            return Ok(Vec::new());
        }
        Ok(vec![self.bytes.remove(0)])
    }
}

#[test]
fn a_body_is_read_in_order_and_to_its_end() {
    let mut body = RequestBody::new(Box::new(BufferedBody::new(b"hello world".to_vec())));
    assert_eq!(body.fill(5), b"hello");
    assert_eq!(body.fill(0), b"");
    assert_eq!(body.fill(100), b" world");
    assert_eq!(body.fill(100), b"");

    let mut slow = RequestBody::new(Box::new(OneByteAtATime {
        bytes: b"abc".to_vec(),
        fails_at_end: false,
    }));
    assert_eq!(slow.fill(2), b"ab");
    assert_eq!(slow.fill(2), b"c");

    let mut broken = RequestBody::new(Box::new(OneByteAtATime {
        bytes: b"abc".to_vec(),
        fails_at_end: true,
    }));
    assert_eq!(broken.fill(10), b"abc");
    assert_eq!(RequestBody::default().fill(10), b"");
}

#[test]
fn a_new_request_is_plain_http_without_anything() {
    let request = Request::new("GET", b"/a".to_vec());
    assert_eq!(request.method, "GET");
    assert_eq!(request.path, b"/a");
    assert_eq!(request.query, b"");
    assert_eq!(request.host, "");
    assert_eq!(request.remote_addr, "");
    assert_eq!((request.proto_major, request.proto_minor), (1, 1));
    assert_eq!(request.scheme, Scheme::Http);
    let request = request
        .with_query(b"q=1".to_vec())
        .with_host("h")
        .with_remote_addr("r:1")
        .with_proto(2, 0);
    assert_eq!(request.query, b"q=1");
    assert_eq!(request.host, "h");
    assert_eq!(request.remote_addr, "r:1");
    assert_eq!((request.proto_major, request.proto_minor), (2, 0));
}

#[test]
fn messages_of_rejected_requests_say_what_is_wrong() {
    let nul = Request::new("GET", b"/foo\0bar".to_vec());
    assert_eq!(
        validate_request(&nul).unwrap_err().message,
        "invalid request path"
    );
    let huge = Request::new("POST", b"/".to_vec())
        .with_header("Content-Length", b"9223372036854775808".to_vec());
    assert_eq!(
        validate_request(&huge).unwrap_err().message,
        "invalid Content-Length header: \"9223372036854775808\""
    );
    let largest = Request::new("POST", b"/".to_vec())
        .with_header("Content-Length", b"9223372036854775807".to_vec());
    assert!(validate_request(&largest).is_ok());
}

#[test]
fn headers_keep_the_order_in_which_names_came() {
    let mut headers = Headers::default();
    headers.insert("b", b"1".to_vec());
    headers.insert("a", b"2".to_vec());
    headers.insert("B", b"3".to_vec());
    let names: Vec<String> = headers.iter().iter().map(|(name, _)| name.to_string()).collect();
    assert_eq!(names, ["B", "A"]);
    assert_eq!(
        headers.get_all("b"),
        Some([b"1".to_vec(), b"3".to_vec()].as_slice())
    );
    headers.clear();
    assert_eq!(headers.name_count(), 0);
}

#[test]
fn a_canonical_name_is_its_own_canonical_form() {
    for name in ["x-forwarded-for", "ETAG", "a b", "-", "x--y"] {
        let canonical = canonical_header_name(name);
        assert_eq!(canonical_header_name(&canonical), canonical);
    }
}

#[test]
fn a_directory_is_served_by_its_index() {
    let php = vec![".php".to_string()];
    assert_eq!(resolve_directory_index(b"/", &php), b"/index.php");
    assert_eq!(resolve_directory_index(b"/sub/", &php), b"/sub/index.php");
    assert_eq!(resolve_directory_index(b"/sub", &php), b"/sub");
    assert_eq!(
        resolve_directory_index(b"/index.php/extra/", &php),
        b"/index.php/extra/"
    );
}

#[test]
fn get_root_and_sub_find_their_index_scripts() {
    for (path, script_name, script_filename) in [
        ("/", "/index.php", "/srv/index.php"),
        ("/sub/", "/sub/index.php", "/srv/sub/index.php"),
    ] {
        let mut ctx = RequestContext::new(
            "/srv".to_string(),
            None,
            Some(Request::new("GET", path.as_bytes().to_vec())),
            CompletionSignal::none(),
        );
        ctx.resolve_paths();
        assert_eq!(ctx.script_name, script_name.as_bytes());
        assert_eq!(ctx.doc_uri, script_name.as_bytes());
        assert_eq!(ctx.script_filename, script_filename.as_bytes());
        assert_eq!(ctx.path_info, b"");
    }
}
