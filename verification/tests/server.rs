use frankenrust::context::{
    BufferedBody, CompletionSignal, RejectedRequest, Request, RequestBody, ResponseSink,
};
use frankenrust::headers::Headers;
use frankenrust::ini::PhpIni;
use frankenrust::server::request::{
    build_request, hex_digit, percent_decode, HttpVersion, RequestHead,
};
use frankenrust::server::response::{
    build_response, internal_error_response, reject_response, ResponseParts,
};
use frankenrust::server::service::{finish_response, prepare_context, ServerConfig};
use frankenrust::server::sink::{BufferedResponseSink, SharedResponseBuffer};

#[test]
fn percent_decode_leaves_plus_and_decodes_escapes() {
    assert_eq!(percent_decode(b"/a+b%20c"), b"/a+b c");
}

#[test]
fn percent_decode_leaves_a_malformed_escape_untouched() {
    assert_eq!(percent_decode(b"/100%"), b"/100%");
    assert_eq!(percent_decode(b"/a%zzb"), b"/a%zzb");
}

#[test]
fn percent_decode_takes_digits_of_either_case_once() {
    assert_eq!(percent_decode(b"%C3%a9"), [0xc3, 0xa9]);
    assert_eq!(percent_decode(b"%2541"), b"%41");
    assert_eq!(percent_decode(b"%4"), b"%4");
    assert_eq!(hex_digit(b'f'), Some(15));
    assert_eq!(hex_digit(b'F'), Some(15));
    assert_eq!(hex_digit(b'g'), None);
}

fn head_of(request: hyper::Request<()>) -> RequestHead {
    let (parts, ()) = request.into_parts();
    RequestHead {
        method: parts.method.as_str().to_string(),
        path_and_query: parts.uri.path_and_query().map(|text| text.as_str().to_string()),
        path: parts.uri.path().to_string(),
        query: parts.uri.query().map(str::to_string),
        version: match parts.version {
            hyper::Version::HTTP_09 => HttpVersion::Http09,
            hyper::Version::HTTP_10 => HttpVersion::Http10,
            _ => HttpVersion::Http11,
        },
        headers: parts
            .headers
            .iter()
            .map(|(name, value)| (name.as_str().to_string(), value.as_bytes().to_vec()))
            .collect(),
    }
}

#[test]
fn build_request_reads_method_path_and_headers() {
    let request = hyper::Request::builder()
        .method("GET")
        .uri("/index.php?x=1")
        .header("X-Test", "yes")
        .body(())
        .unwrap();
    let request = build_request(&head_of(request), Vec::new(), "127.0.0.1:9999");

    assert_eq!(request.method, "GET");
    assert_eq!(request.path, b"/index.php");
    assert_eq!(request.query, b"x=1");
    assert_eq!(
        request.headers.get_first("X-Test"),
        Some(b"yes".as_slice())
    );
    assert_eq!(request.remote_addr, "127.0.0.1:9999");
}

#[test]
fn build_request_takes_host_target_protocol_and_length() {
    let request = hyper::Request::builder()
        .method("POST")
        .uri("/a%20b?x=%20")
        .version(hyper::Version::HTTP_10)
        .header("Host", "example.com:8080")
        .header("X-Multi", "1")
        .header("X-Multi", "2")
        .body(())
        .unwrap();
    let mut request = build_request(&head_of(request), b"hello".to_vec(), "");

    assert_eq!(request.raw_target, b"/a%20b?x=%20");
    assert_eq!(request.path, b"/a b");
    assert_eq!(request.query, b"x=%20");
    assert_eq!(request.host, "example.com:8080");
    assert_eq!((request.proto_major, request.proto_minor), (1, 0));
    assert_eq!(request.headers.get_all("X-Multi").map(|v| v.len()), Some(2));
    assert_eq!(request.body.fill(10), b"hello");
}

#[test]
fn a_host_that_is_no_text_is_left_out() {
    let head = RequestHead {
        method: "GET".to_string(),
        path_and_query: None,
        path: "/".to_string(),
        query: None,
        version: HttpVersion::Http11,
        headers: vec![("host".to_string(), vec![0xff, 0xfe])],
    };
    assert_eq!(build_request(&head, Vec::new(), "").host, "");
}

fn buffer(status: u16, headers: &[(&str, &str)], body: &str) -> SharedResponseBuffer {
    let mut map = Headers::default();
    for (name, value) in headers {
        map.insert(name, value.as_bytes().to_vec());
    }
    SharedResponseBuffer {
        status,
        headers: map,
        body: body.as_bytes().to_vec(),
    }
}

fn header<'a>(parts: &'a ResponseParts, name: &str) -> Option<&'a [u8]> {
    parts
        .headers
        .iter()
        .find(|(key, _)| key == name)
        .map(|(_, value)| value.as_slice())
}

#[test]
fn build_response_carries_status_headers_and_body() {
    let response = build_response(&buffer(201, &[("Content-Type", "text/plain")], "hello"));
    assert_eq!(response.status, 201);
    assert_eq!(
        header(&response, "content-type"),
        Some(b"text/plain".as_slice())
    );
    assert_eq!(response.body, b"hello");
}

#[test]
fn build_response_falls_back_to_200_for_an_unset_status() {
    assert_eq!(build_response(&SharedResponseBuffer::default()).status, 200);
}

#[test]
fn headers_that_http_cannot_carry_are_left_out() {
    let response = build_response(&buffer(
        200,
        &[("X Y", "v"), ("X-Bad", "a\nb"), ("X-Good", "v")],
        "",
    ));
    assert_eq!(response.headers, vec![("x-good".to_string(), b"v".to_vec())]);
}

#[test]
fn reject_response_carries_the_message_as_the_body() {
    let response = reject_response(&RejectedRequest {
        status: 400,
        message: "invalid request path".to_string(),
    });
    assert_eq!(response.status, 400);
    assert_eq!(response.body, b"invalid request path");
}

#[test]
fn a_failed_dispatch_is_an_internal_error() {
    assert_eq!(internal_error_response().status, 500);
    let full = buffer(204, &[], "");
    assert_eq!(finish_response(false, &full).status, 500);
    assert_eq!(finish_response(true, &full).status, 204);
}

#[test]
fn writes_headers_and_status_accumulate_and_are_readable_back() {
    let mut sink = BufferedResponseSink::new(SharedResponseBuffer::default());
    sink.write_status(201);
    sink.add_header("X-Foo", b"bar");
    sink.add_header("X-Foo", b"baz");
    assert_eq!(sink.write(b"hello ").unwrap(), 6);
    assert_eq!(sink.write(b"world").unwrap(), 5);
    assert!(sink.flush().is_ok());

    let shared = sink.buffer();
    assert_eq!(shared.status, 201);
    assert_eq!(
        shared.headers.get_all("X-Foo"),
        Some([b"bar".to_vec(), b"baz".to_vec()].as_slice())
    );
    assert_eq!(shared.body, b"hello world");
}

#[test]
fn clear_headers_empties_the_map_but_not_the_body() {
    let mut sink = BufferedResponseSink::new(SharedResponseBuffer::default());
    sink.add_header("X-Foo", b"bar");
    sink.write(b"partial").unwrap();
    sink.clear_headers();

    let shared = sink.buffer();
    assert_eq!(shared.headers.get_all("X-Foo"), None);
    assert_eq!(shared.body, b"partial");
}

#[test]
fn a_request_for_a_directory_is_one_for_its_index() {
    for (path, uri, file, info) in [
        ("/", "/index.php", "/srv/index.php", ""),
        ("/sub/", "/sub/index.php", "/srv/sub/index.php", ""),
        ("/vars.php/a/", "/vars.php", "/srv/vars.php", "/a/"),
    ] {
        let request = Request::new("GET", path.as_bytes().to_vec());
        let ctx = prepare_context(b"/srv", request, CompletionSignal::none())
            .ok()
            .unwrap();
        assert_eq!(ctx.doc_uri, uri.as_bytes());
        assert_eq!(ctx.script_name, uri.as_bytes());
        assert_eq!(ctx.script_filename, file.as_bytes());
        assert_eq!(ctx.path_info, info.as_bytes());
    }
}

#[test]
fn a_refused_request_is_answered_by_its_reason() {
    let request = Request::new("GET", b"/a\0b".to_vec());
    let response = prepare_context(b"/srv", request, CompletionSignal::none())
        .err()
        .unwrap();
    assert_eq!(response.status, 400);
    assert_eq!(response.body, b"invalid request path");
}

#[test]
fn a_configuration_is_plain_data() {
    let config = ServerConfig {
        document_root: b"/srv".to_vec(),
        num_threads: 4,
        php_ini: PhpIni::new(),
    };
    assert_eq!(config.num_threads, 4);
    let mut body = RequestBody::new(Box::new(BufferedBody::new(b"abc".to_vec())));
    assert_eq!(body.fill(2), b"ab");
    assert_eq!(body.fill(2), b"c");
}

#[test]
fn text_without_escapes_is_decoded_as_it_is() {
    assert_eq!(percent_decode(b"/a/b+c?d"), b"/a/b+c?d");
    assert_eq!(percent_decode(b""), b"");
}

#[test]
fn headers_of_an_interim_response_do_not_go_out_with_the_final_one() {
    let mut sink = BufferedResponseSink::new(SharedResponseBuffer::default());
    sink.add_header("Link", b"</style.css>; rel=preload");
    sink.write_status(103);
    sink.clear_headers();
    sink.add_header("X-Final", b"yes");
    sink.write_status(200);
    sink.write(b"done").unwrap();

    let response = build_response(sink.buffer());
    assert_eq!(response.status, 200);
    assert_eq!(
        response.headers,
        vec![("x-final".to_string(), b"yes".to_vec())]
    );
    assert_eq!(response.body, b"done");
}
