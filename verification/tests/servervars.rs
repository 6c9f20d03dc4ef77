use frankenrust::callbacks::servervars::{
    build_server_vars_batch, compute_server_vars, frankenrust_collect_server_vars,
    go_update_request_info, update_request_info, CServerVarsBatch, CText, HeaderKey,
    SapiRequestInfo,
};
use frankenrust::cgi::{uncommon_header_key, COMMON_HEADERS};
use frankenrust::context::{CompletionSignal, ContextSlots, Request, RequestContext, Scheme};
use frankenrust::path::sanitized_path_join;

fn test_context(request: Option<Request>) -> RequestContext {
    let mut ctx = RequestContext::new(
        "/var/www".to_string(),
        None,
        request,
        CompletionSignal::none(),
    );
    ctx.resolve_paths();
    ctx
}

fn get(path: &str, query: &str) -> Request {
    Request::new("GET", path.as_bytes().to_vec()).with_query(query.as_bytes().to_vec())
}

fn request_for_server_vars() -> Request {
    get("/index.php", "a=1").with_header("Content-Length", b"123".to_vec())
}

#[test]
fn server_vars_http_host_keeps_port_server_name_does_not() {
    let mut request = request_for_server_vars();
    request.host = "example.com:8080".to_string();
    let ctx = test_context(Some(request));

    let vars = compute_server_vars(&ctx).unwrap();
    assert_eq!(vars.http_host, b"example.com:8080");
    assert_eq!(vars.server_name, b"example.com");
}

#[test]
fn server_vars_server_name_strips_ipv6_brackets_on_success() {
    let mut request = request_for_server_vars();
    request.host = "[::1]:80".to_string();
    let ctx = test_context(Some(request));

    let vars = compute_server_vars(&ctx).unwrap();
    assert_eq!(vars.http_host, b"[::1]:80");
    assert_eq!(vars.server_name, b"::1");
}

#[test]
fn server_vars_server_name_keeps_ipv6_brackets_without_port() {
    let mut request = request_for_server_vars();
    request.host = "[::1]".to_string();
    let ctx = test_context(Some(request));

    let vars = compute_server_vars(&ctx).unwrap();
    assert_eq!(vars.http_host, b"[::1]");
    assert_eq!(vars.server_name, b"[::1]");
}

#[test]
fn server_vars_content_length_is_raw_header_and_empty_when_absent() {
    let mut with_header = request_for_server_vars();
    with_header.host = "example.com".to_string();
    let ctx = test_context(Some(with_header));
    assert_eq!(compute_server_vars(&ctx).unwrap().content_length, b"123");

    let mut without_header = get("/index.php", "");
    without_header.host = "example.com".to_string();
    let ctx = test_context(Some(without_header));
    assert_eq!(compute_server_vars(&ctx).unwrap().content_length, b"");
}

#[test]
fn server_vars_php_self_is_script_name_plus_path_info() {
    let mut request = get("/index.php/extra/path", "");
    request.host = "example.com".to_string();
    let ctx = test_context(Some(request));

    assert_eq!(ctx.script_name, b"/index.php");
    assert_eq!(ctx.path_info, b"/extra/path");

    let vars = compute_server_vars(&ctx).unwrap();
    assert_eq!(vars.php_self, b"/index.php/extra/path");
}

#[test]
fn server_vars_server_port_falls_back_by_scheme() {
    let mut http_request = get("/index.php", "");
    http_request.host = "example.com".to_string();
    http_request.scheme = Scheme::Http;
    let ctx = test_context(Some(http_request));
    assert_eq!(compute_server_vars(&ctx).unwrap().server_port, b"80");

    let mut https_request = get("/index.php", "");
    https_request.host = "example.com".to_string();
    https_request.scheme = Scheme::Https;
    let ctx = test_context(Some(https_request));
    assert_eq!(compute_server_vars(&ctx).unwrap().server_port, b"443");

    let mut explicit_port_request = get("/index.php", "");
    explicit_port_request.host = "example.com:9000".to_string();
    let ctx = test_context(Some(explicit_port_request));
    assert_eq!(
        compute_server_vars(&ctx).unwrap().server_port,
        b"9000",
        "an explicit port must win over the scheme fallback"
    );
}

#[test]
fn server_vars_content_length_is_the_first_header_not_a_join() {
    let mut request = get("/index.php", "")
        .with_header("Content-Length", b"5".to_vec())
        .with_header("Content-Length", b"9".to_vec());
    request.host = "example.com".to_string();
    let ctx = test_context(Some(request));

    assert_eq!(compute_server_vars(&ctx).unwrap().content_length, b"5");
}

#[test]
fn compute_server_vars_is_none_without_a_request() {
    let ctx = test_context(None);
    assert!(compute_server_vars(&ctx).is_none());
    assert!(build_server_vars_batch(&ctx).is_none());
}

#[test]
fn every_value_stands_in_its_own_field() {
    let mut request = get("/index.php/extra", "x=1")
        .with_raw_target(b"/index.php/extra?x=1".to_vec())
        .with_header("Content-Length", b"7".to_vec());
    request.host = "example.com:8080".to_string();
    request.remote_addr = "1.2.3.4:5678".to_string();
    let ctx = test_context(Some(request));

    let vars = compute_server_vars(&ctx).unwrap();
    let ffi = vars.as_ffi();

    assert_eq!(ffi.remote_addr.unwrap(), b"1.2.3.4");
    assert_eq!(ffi.remote_host.unwrap(), b"1.2.3.4");
    assert_eq!(ffi.remote_port.unwrap(), b"5678");
    assert_eq!(ffi.document_root.unwrap(), b"/var/www");
    assert_eq!(ffi.path_info.unwrap(), b"/extra");
    assert_eq!(ffi.php_self.unwrap(), b"/index.php/extra");
    assert_eq!(ffi.document_uri.unwrap(), b"/index.php");
    assert_eq!(ffi.script_filename.unwrap(), b"/var/www/index.php");
    assert_eq!(ffi.script_name.unwrap(), b"/index.php");
    assert_eq!(ffi.server_name.unwrap(), b"example.com");
    assert_eq!(ffi.server_port.unwrap(), b"8080");
    assert_eq!(ffi.content_length.unwrap(), b"7");
    assert_eq!(ffi.server_protocol.unwrap(), b"HTTP/1.1");
    assert_eq!(ffi.http_host.unwrap(), b"example.com:8080");
    assert_eq!(ffi.request_uri.unwrap(), b"/index.php/extra?x=1");
    assert_eq!(ffi.ssl_cipher, None);
    assert_eq!(ffi.total_num_vars, vars.total_num_vars);
    assert_eq!(ffi.request_scheme, "http");
    assert_eq!(ffi.https, "");
    assert_eq!(ffi.ssl_protocol, "");
}

#[test]
fn https_is_reported_with_its_port() {
    let mut request = get("/index.php", "");
    request.host = "example.com".to_string();
    request.scheme = Scheme::Https;
    let ctx = test_context(Some(request));

    let ffi = compute_server_vars(&ctx).unwrap().as_ffi();
    assert_eq!(ffi.server_port.unwrap(), b"443");
    assert_eq!(ffi.request_scheme, "https");
    assert_eq!(ffi.https, "on");
    assert_eq!(ffi.ssl_protocol, "");
}

#[test]
fn as_ffi_server_name_keeps_the_ipv6_bracket_asymmetry() {
    for (host, want_server_name, want_port) in [
        ("example.com:8080", "example.com", "8080"),
        ("[::1]:80", "::1", "80"),
        ("[::1]", "[::1]", "80"),
    ] {
        let mut request = get("/index.php", "");
        request.host = host.to_string();
        let ctx = test_context(Some(request));

        let ffi = compute_server_vars(&ctx).unwrap().as_ffi();
        assert_eq!(ffi.server_name.unwrap(), want_server_name.as_bytes());
        assert_eq!(ffi.http_host.unwrap(), host.as_bytes());
        assert_eq!(ffi.server_port.unwrap(), want_port.as_bytes());
    }
}

#[test]
fn build_server_vars_batch_joins_multi_valued_headers_and_picks_the_right_key_path() {
    let mut request = get("/index.php", "")
        .with_header("X-Foo", b"a".to_vec())
        .with_header("X-Foo", b"b".to_vec())
        .with_header("Accept-Encoding", b"gzip".to_vec());
    request.host = "example.com".to_string();
    let ctx = test_context(Some(request));

    let batch = build_server_vars_batch(&ctx).unwrap();
    assert_eq!(
        batch.headers[0].key,
        HeaderKey::Mangled(b"HTTP_X_FOO\0".to_vec())
    );
    let c_batch = batch.as_c_batch();
    assert_eq!(c_batch.headers.len(), 2);

    let x_foo = &c_batch.headers[0];
    assert!(x_foo.known_key.is_none(), "X-Foo is not a pre-interned key");
    assert_eq!(x_foo.key, Some(b"HTTP_X_FOO\0".to_vec()));
    assert_eq!(
        x_foo.value,
        Some(b"a, b".to_vec()),
        "multi-valued headers join with \", \""
    );

    let accept = &c_batch.headers[1];
    assert_eq!(
        accept.known_key,
        Some("HTTP_ACCEPT_ENCODING"),
        "Accept-Encoding must take the pre-interned fast path"
    );
    assert!(accept.key.is_none());
    assert_eq!(accept.value, Some(b"gzip".to_vec()));
}

fn read_kept(ctx: &RequestContext, handle: Option<usize>) -> Vec<u8> {
    let mut bytes = ctx.arena.get(handle.unwrap()).unwrap().to_vec();
    assert_eq!(bytes.pop(), Some(0));
    bytes
}

#[test]
fn update_request_info_passes_content_length_verbatim_including_unknown() {
    let mut request = get("/index.php", "");
    request.content_length = -1;
    let mut ctx = test_context(Some(request));
    let mut info = SapiRequestInfo::default();

    update_request_info(&mut ctx, &mut info);
    assert_eq!(info.content_length, -1);
}

#[test]
fn update_request_info_leaves_content_type_null_when_absent() {
    let mut ctx = test_context(Some(get("/index.php", "")));
    let mut info = SapiRequestInfo::default();

    update_request_info(&mut ctx, &mut info);
    assert!(info.content_type.is_none());
}

#[test]
fn update_request_info_sets_content_type_when_present() {
    let request = get("/index.php", "").with_header("Content-Type", b"text/plain".to_vec());
    let mut ctx = test_context(Some(request));
    let mut info = SapiRequestInfo::default();

    update_request_info(&mut ctx, &mut info);
    assert!(info.content_type.is_some());
    assert_eq!(read_kept(&ctx, info.content_type), b"text/plain");
}

#[test]
fn update_request_info_uses_the_first_content_type_when_duplicated() {
    let request = Request::new("POST", b"/index.php".to_vec())
        .with_header("Content-Type", b"text/plain".to_vec())
        .with_header("Content-Type", b"application/json".to_vec());
    let mut ctx = test_context(Some(request));
    let mut info = SapiRequestInfo::default();

    update_request_info(&mut ctx, &mut info);
    assert_eq!(read_kept(&ctx, info.content_type), b"text/plain");
}

#[test]
fn update_request_info_returns_the_first_authorization_when_duplicated() {
    let request = get("/index.php", "")
        .with_header("Authorization", b"Basic dXNlcjpwYXNz".to_vec())
        .with_header("Authorization", b"Basic b3RoZXI6b3RoZXI=".to_vec());
    let mut ctx = test_context(Some(request));
    let mut info = SapiRequestInfo::default();

    let auth = update_request_info(&mut ctx, &mut info);
    assert!(auth.is_some());
    assert_eq!(read_kept(&ctx, auth), b"Basic dXNlcjpwYXNz");
}

#[test]
fn update_request_info_computes_proto_num() {
    let mut request = get("/index.php", "");
    request.proto_major = 1;
    request.proto_minor = 1;
    let mut ctx = test_context(Some(request));
    let mut info = SapiRequestInfo::default();

    update_request_info(&mut ctx, &mut info);
    assert_eq!(info.proto_num, 1001);
}

#[test]
fn update_request_info_returns_null_without_authorization_header() {
    let mut ctx = test_context(Some(get("/index.php", "")));
    let mut info = SapiRequestInfo::default();

    let auth = update_request_info(&mut ctx, &mut info);
    assert!(auth.is_none());
}

#[test]
fn update_request_info_returns_authorization_header_value() {
    let request = get("/index.php", "").with_header("Authorization", b"Bearer xyz".to_vec());
    let mut ctx = test_context(Some(request));
    let mut info = SapiRequestInfo::default();

    let auth = update_request_info(&mut ctx, &mut info);
    assert!(auth.is_some());
    assert_eq!(read_kept(&ctx, auth), b"Bearer xyz");
}

#[test]
fn update_request_info_uses_cached_method_constants() {
    let mut ctx = test_context(Some(Request::new("POST", b"/index.php".to_vec())));
    let mut info = SapiRequestInfo::default();

    update_request_info(&mut ctx, &mut info);
    assert_eq!(info.request_method, Some(CText::Static("POST")));
}

#[test]
fn a_method_of_its_own_is_kept_by_the_request() {
    let mut ctx = test_context(Some(Request::new("BREW", b"/index.php".to_vec())));
    let mut info = SapiRequestInfo::default();

    update_request_info(&mut ctx, &mut info);
    match info.request_method {
        Some(CText::Kept(handle)) => assert_eq!(read_kept(&ctx, Some(handle)), b"BREW"),
        other => panic!("{other:?}"),
    }
}

fn install(slots: &mut ContextSlots, thread_index: usize, document_root: &str, request: Request) {
    slots.set(
        thread_index,
        RequestContext::new(
            document_root.to_string(),
            None,
            Some(request),
            CompletionSignal::none(),
        ),
    );
}

fn install_empty(slots: &mut ContextSlots, thread_index: usize) {
    slots.set(
        thread_index,
        RequestContext::new(String::new(), None, None, CompletionSignal::none()),
    );
}

fn collect(slots: &ContextSlots, thread_index: usize) -> Option<CServerVarsBatch> {
    frankenrust_collect_server_vars(slots, thread_index).map(|batch| batch.as_c_batch())
}

#[test]
fn phase_one_computes_every_documented_server_var() {
    const THREAD_INDEX: usize = 60;
    let mut slots = ContextSlots::new();

    let request = Request::new("GET", b"/index.php/extra".to_vec())
        .with_query(b"a=1".to_vec())
        .with_host("example.com:9000")
        .with_remote_addr("10.0.0.5:4321")
        .with_proto(1, 1)
        .with_header("Content-Length", b"42".to_vec());
    install(&mut slots, THREAD_INDEX, "/var/www", request);
    {
        let ctx = slots.context_mut(THREAD_INDEX).expect("just installed");
        ctx.script_name = b"/index.php".to_vec();
        ctx.path_info = b"/extra".to_vec();
        ctx.doc_uri = b"/index.php".to_vec();
        ctx.script_filename = b"/var/www/index.php".to_vec();
    }

    let batch = collect(&slots, THREAD_INDEX).expect("a context with a request is installed");
    let vars = batch.vars;

    assert_eq!(vars.http_host.unwrap(), b"example.com:9000");
    assert_eq!(vars.server_name.unwrap(), b"example.com");
    assert_eq!(vars.server_port.unwrap(), b"9000");
    assert_eq!(vars.php_self.unwrap(), b"/index.php/extra");
    assert_eq!(vars.server_protocol.unwrap(), b"HTTP/1.1");
    assert_eq!(vars.content_length.unwrap(), b"42");
    assert_eq!(vars.remote_addr.unwrap(), b"10.0.0.5");
    assert_eq!(vars.remote_host.unwrap(), b"10.0.0.5");
    assert_eq!(vars.remote_port.unwrap(), b"4321");
    assert_eq!(vars.document_root.unwrap(), b"/var/www");
    assert!(vars.total_num_vars >= 28);
}

#[test]
fn server_port_defaults_to_80_when_host_carries_no_port() {
    const THREAD_INDEX: usize = 61;
    let mut slots = ContextSlots::new();

    let request = Request::new("GET", b"/".to_vec()).with_host("example.com");
    install(&mut slots, THREAD_INDEX, "/var/www", request);

    let batch = collect(&slots, THREAD_INDEX).expect("a context with a request is installed");
    assert_eq!(batch.vars.server_port.unwrap(), b"80");
    assert_eq!(batch.vars.server_name.unwrap(), b"example.com");
}

#[test]
fn an_absent_content_length_header_is_a_null_pointer() {
    const THREAD_INDEX: usize = 62;
    let mut slots = ContextSlots::new();

    let request = Request::new("GET", b"/".to_vec()).with_host("example.com");
    install(&mut slots, THREAD_INDEX, "/var/www", request);

    let batch = collect(&slots, THREAD_INDEX).expect("a context with a request is installed");
    assert!(batch.vars.content_length.is_none());
}

#[test]
fn a_present_but_empty_header_registers_as_a_null_pointer() {
    const THREAD_INDEX: usize = 63;
    let mut slots = ContextSlots::new();

    let request = Request::new("GET", b"/".to_vec())
        .with_host("example.com")
        .with_header("X-Empty", b"".to_vec());
    install(&mut slots, THREAD_INDEX, "/var/www", request);

    let batch = collect(&slots, THREAD_INDEX).expect("a context with a request is installed");
    assert_eq!(batch.headers.len(), 1);
    assert!(
        batch.headers[0].value.is_none(),
        "empty header value must be NULL"
    );
}

#[test]
fn collection_reports_nothing_without_a_request() {
    const THREAD_INDEX: usize = 64;
    let mut slots = ContextSlots::new();

    install_empty(&mut slots, THREAD_INDEX);
    assert!(collect(&slots, THREAD_INDEX).is_none());
}

#[test]
fn collection_reports_nothing_without_a_context() {
    const THREAD_INDEX: usize = 65;
    let slots = ContextSlots::new();

    assert!(collect(&slots, THREAD_INDEX).is_none());
}

#[test]
fn header_pointers_survive_reallocation_and_install() {
    const THREAD_INDEX: usize = 68;
    let mut slots = ContextSlots::new();

    let mut request = Request::new("GET", b"/index.php".to_vec()).with_host("example.com");
    let mut expected: Vec<(String, String, bool)> = Vec::new();
    for (name, _) in COMMON_HEADERS.iter().take(20) {
        let value = format!("v-{name}");
        request = request.with_header(name, value.clone().into_bytes());
        expected.push((name.to_string(), value, true));
    }
    for i in 0..20 {
        let name = format!("X-Custom-{i}");
        let value = format!("custom-value-{i}");
        request = request.with_header(&name, value.clone().into_bytes());
        expected.push((name, value, false));
    }
    assert!(expected.len() >= 32);

    install(&mut slots, THREAD_INDEX, "/var/www", request);
    let batch = collect(&slots, THREAD_INDEX).expect("a context with a request is installed");
    assert_eq!(batch.headers.len(), expected.len());

    for (name, value, is_common) in &expected {
        let header = batch
            .headers
            .iter()
            .find(|h| h.value.as_deref() == Some(value.as_bytes()))
            .unwrap_or_else(|| panic!("missing header {name} (value {value})"));
        if *is_common {
            assert!(header.known_key.is_some(), "{name} should use the fast path");
            assert!(
                header.key.is_none(),
                "{name} must not also carry a slow-path key"
            );
        } else {
            assert!(header.known_key.is_none(), "{name} should use the slow path");
            assert_eq!(header.key, Some(uncommon_header_key(name)));
        }
    }
}

fn update_info(
    slots: &mut ContextSlots,
    thread_index: usize,
) -> (SapiRequestInfo, Option<usize>) {
    let mut info = SapiRequestInfo::default();
    let auth = go_update_request_info(slots, thread_index, &mut info);
    (info, auth)
}

#[test]
fn path_translated_is_null_when_path_info_is_empty() {
    const THREAD_INDEX: usize = 69;
    let mut slots = ContextSlots::new();

    install(
        &mut slots,
        THREAD_INDEX,
        "/var/www",
        Request::new("GET", b"/index.php".to_vec()),
    );
    let (info, _) = update_info(&mut slots, THREAD_INDEX);
    assert!(info.path_translated.is_none());
}

#[test]
fn path_translated_is_sanitized_join_when_path_info_is_present() {
    const THREAD_INDEX: usize = 70;
    let mut slots = ContextSlots::new();

    install(
        &mut slots,
        THREAD_INDEX,
        "/var/www",
        Request::new("GET", b"/index.php/more".to_vec()),
    );
    slots
        .context_mut(THREAD_INDEX)
        .expect("just installed")
        .path_info = b"/more".to_vec();

    let (info, _) = update_info(&mut slots, THREAD_INDEX);
    assert!(info.path_translated.is_some());
    let translated = read_kept(slots.context(THREAD_INDEX).unwrap(), info.path_translated);
    assert_eq!(
        translated,
        sanitized_path_join("/var/www", "/more").as_bytes()
    );
}

#[test]
fn content_length_minus_one_passes_through_verbatim() {
    const THREAD_INDEX: usize = 71;
    let mut slots = ContextSlots::new();

    install(
        &mut slots,
        THREAD_INDEX,
        "/var/www",
        Request::new("GET", b"/index.php".to_vec()).with_content_length(-1),
    );
    let (info, _) = update_info(&mut slots, THREAD_INDEX);
    assert_eq!(info.content_length, -1);
}

#[test]
fn content_type_is_null_for_a_present_but_empty_header() {
    const THREAD_INDEX: usize = 72;
    let mut slots = ContextSlots::new();

    install(
        &mut slots,
        THREAD_INDEX,
        "/var/www",
        Request::new("GET", b"/index.php".to_vec()).with_header("Content-Type", b"".to_vec()),
    );
    let (info, _) = update_info(&mut slots, THREAD_INDEX);
    assert!(info.content_type.is_none());
}

#[test]
fn authorization_is_null_for_absent_and_empty_headers() {
    const ABSENT: usize = 73;
    const EMPTY: usize = 74;
    let mut slots = ContextSlots::new();

    install(
        &mut slots,
        ABSENT,
        "/var/www",
        Request::new("GET", b"/index.php".to_vec()),
    );
    let (_, auth_absent) = update_info(&mut slots, ABSENT);
    assert!(auth_absent.is_none());

    install(
        &mut slots,
        EMPTY,
        "/var/www",
        Request::new("GET", b"/index.php".to_vec()).with_header("Authorization", b"".to_vec()),
    );
    let (_, auth_empty) = update_info(&mut slots, EMPTY);
    assert!(auth_empty.is_none());
}

#[test]
fn authorization_is_returned_when_present() {
    const THREAD_INDEX: usize = 75;
    let mut slots = ContextSlots::new();

    install(
        &mut slots,
        THREAD_INDEX,
        "/var/www",
        Request::new("GET", b"/index.php".to_vec())
            .with_header("Authorization", b"Bearer xyz".to_vec()),
    );
    let (_, auth) = update_info(&mut slots, THREAD_INDEX);
    assert!(auth.is_some());
    assert_eq!(
        read_kept(slots.context(THREAD_INDEX).unwrap(), auth),
        b"Bearer xyz"
    );
}

#[test]
fn update_request_info_returns_null_without_a_request() {
    const THREAD_INDEX: usize = 76;
    let mut slots = ContextSlots::new();

    install_empty(&mut slots, THREAD_INDEX);
    let (info, auth) = update_info(&mut slots, THREAD_INDEX);
    assert!(auth.is_none());
    assert!(info.request_method.is_none());
}
