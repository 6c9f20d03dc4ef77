//! `$_SERVER` and the request information that PHP reads before a script runs.
use vstd::prelude::*;
use vstd::utf8::*;

use crate::cgi;
use crate::context::{ContextSlots, RequestContext, Scheme};
use crate::headers;
use crate::headers::Headers;
use crate::path;
use crate::text;
use crate::text::DOT;

verus! {

/// The port that a scheme implies.
pub open spec fn default_port(scheme: Scheme) -> Seq<char> {
    match scheme {
        Scheme::Http => "80"@,
        Scheme::Https => "443"@,
    }
}

/// The server's name and port as the `Host` header gives them: a host that does not split is
/// the name as it stands, brackets and all, and a missing port is the scheme's.
pub open spec fn server_address(host: Seq<u8>, scheme: Scheme) -> (Seq<u8>, Seq<u8>) {
    let (name, port) = match cgi::host_port(host) {
        Some(parts) => parts,
        None => (seq![], seq![]),
    };
    (
        if name.len() == 0 {
            host
        } else {
            name
        },
        if port.len() == 0 {
            encode_utf8(default_port(scheme))
        } else {
            port
        },
    )
}

/// The server's name and port as the `Host` header gives them.
pub fn derive_server_name_and_port(host: &[u8], scheme: Scheme) -> (r: (Vec<u8>, Vec<u8>))
    ensures
        (r.0@, r.1@) == server_address(host@, scheme),
{
    let (name, port) = match cgi::split_host_port_bytes(host) {
        Some(parts) => parts,
        None => (Vec::new(), Vec::new()),
    };
    let name = if name.len() == 0 {
        text::to_vec(host)
    } else {
        name
    };
    let port = if port.len() == 0 {
        match scheme {
            Scheme::Http => text::str_bytes("80"),
            Scheme::Https => text::str_bytes("443"),
        }
    } else {
        port
    };
    (name, port)
}

/// `HTTP/` and the version.
pub open spec fn protocol_name(major: nat, minor: nat) -> Seq<u8> {
    (encode_utf8("HTTP/"@) + text::decimal(major)).push(DOT) + text::decimal(minor)
}

/// `HTTP/` and the version.
pub fn server_protocol(major: u16, minor: u16) -> (r: Vec<u8>)
    ensures
        r@ == protocol_name(major as nat, minor as nat),
{
    let mut r = text::str_bytes("HTTP/");
    text::append(&mut r, text::decimal_bytes(major as u64).as_slice());
    r.push(DOT);
    text::append(&mut r, text::decimal_bytes(minor as u64).as_slice());
    r
}

/// The `$_SERVER` variables that every request has.
#[derive(Debug, PartialEq, Eq)]
pub struct ComputedServerVars {
    pub remote_addr: Vec<u8>,
    pub remote_host: Vec<u8>,
    pub remote_port: Vec<u8>,
    pub document_root: Vec<u8>,
    pub path_info: Vec<u8>,
    pub php_self: Vec<u8>,
    pub document_uri: Vec<u8>,
    pub script_filename: Vec<u8>,
    pub script_name: Vec<u8>,
    pub server_name: Vec<u8>,
    pub server_port: Vec<u8>,
    pub content_length: Vec<u8>,
    pub server_protocol: Vec<u8>,
    pub http_host: Vec<u8>,
    pub request_uri: Vec<u8>,
    pub ssl_cipher: Vec<u8>,
    pub scheme: Scheme,
    /// How many variables to make room for.
    pub total_num_vars: usize,
}

/// How many variables to make room for: the known ones and one for each header.
pub open spec fn room_for(header_count: int) -> int {
    if 28 + header_count > usize::MAX {
        usize::MAX as int
    } else {
        28 + header_count
    }
}

/// The values of a header's first line, empty where there is none.
pub open spec fn first_or_empty(h: Seq<(Seq<char>, Seq<Seq<u8>>)>, name: Seq<char>) -> Seq<u8> {
    match headers::first_value(h, name) {
        Some(value) => value,
        None => seq![],
    }
}

/// Whether these are the variables of the context's request.
pub open spec fn are_server_vars(ctx: RequestContext, v: ComputedServerVars) -> bool {
    let request = ctx.request->0;
    &&& ctx.request is Some
    &&& (v.remote_addr@, v.remote_port@) == cgi::remote_parts(encode_utf8(request.remote_addr@))
    &&& v.remote_host@ == v.remote_addr@
    &&& v.document_root@ == encode_utf8(ctx.document_root@)
    &&& v.path_info@ == ctx.path_info@
    &&& v.php_self@ == ctx.script_name@ + ctx.path_info@
    &&& v.document_uri@ == ctx.doc_uri@
    &&& v.script_filename@ == ctx.script_filename@
    &&& v.script_name@ == ctx.script_name@
    &&& (v.server_name@, v.server_port@) == server_address(
        encode_utf8(request.host@),
        request.scheme,
    )
    &&& v.content_length@ == first_or_empty(request.headers@, "Content-Length"@)
    &&& v.server_protocol@ == protocol_name(
        request.proto_major as nat,
        request.proto_minor as nat,
    )
    &&& v.http_host@ == encode_utf8(request.host@)
    &&& v.request_uri@ == ctx.request_uri@
    &&& v.ssl_cipher@.len() == 0
    &&& v.scheme == request.scheme
    &&& v.total_num_vars == room_for(request.headers@.len() as int)
}

/// A header's first value, empty where there is none.
fn first_bytes(headers: &Headers, name: &str) -> (r: Vec<u8>)
    ensures
        r@ == first_or_empty(headers@, name@),
{
    match headers.get_first(name) {
        Some(value) => text::to_vec(value),
        None => {
            let none: Vec<u8> = Vec::new();
            assert(none@ =~= seq![]);
            none
        },
    }
}

/// The variables of the context's request, or nothing without one.
pub fn compute_server_vars(ctx: &RequestContext) -> (r: Option<ComputedServerVars>)
    ensures
        match r {
            Some(v) => are_server_vars(*ctx, v),
            None => ctx.request is None,
        },
{
    let request = match &ctx.request {
        Some(request) => request,
        None => return None,
    };
    let (remote_addr, remote_port) = cgi::split_remote_addr_bytes(
        request.remote_addr.as_str().as_bytes(),
    );
    let remote_host = text::to_vec(remote_addr.as_slice());
    let (server_name, server_port) = derive_server_name_and_port(
        request.host.as_str().as_bytes(),
        request.scheme,
    );
    let mut php_self = text::to_vec(ctx.script_name.as_slice());
    text::append(&mut php_self, ctx.path_info.as_slice());
    let count: usize = request.headers.name_count();
    let total_num_vars: usize = if count > usize::MAX - 28 {
        usize::MAX
    } else {
        28 + count
    };
    Some(
        ComputedServerVars {
            remote_addr,
            remote_host,
            remote_port,
            document_root: text::str_bytes(ctx.document_root.as_str()),
            path_info: text::to_vec(ctx.path_info.as_slice()),
            php_self,
            document_uri: text::to_vec(ctx.doc_uri.as_slice()),
            script_filename: text::to_vec(ctx.script_filename.as_slice()),
            script_name: text::to_vec(ctx.script_name.as_slice()),
            server_name,
            server_port,
            content_length: first_bytes(&request.headers, "Content-Length"),
            server_protocol: server_protocol(request.proto_major, request.proto_minor),
            http_host: text::str_bytes(request.host.as_str()),
            request_uri: text::to_vec(ctx.request_uri.as_slice()),
            ssl_cipher: Vec::new(),
            scheme: request.scheme,
            total_num_vars,
        },
    )
}

/// A value as C gets it: nothing at all stands for an empty one.
pub open spec fn c_value(s: Seq<u8>) -> Option<Seq<u8>> {
    if s.len() == 0 {
        None
    } else {
        Some(s)
    }
}

/// The bytes of an optional value.
pub open spec fn opt_view(o: Option<Vec<u8>>) -> Option<Seq<u8>> {
    match o {
        Some(v) => Some(v@),
        None => None,
    }
}

/// A value as C gets it.
pub fn c_buf(bytes: &[u8]) -> (r: Option<Vec<u8>>)
    ensures
        opt_view(r) == c_value(bytes@),
{
    if bytes.len() == 0 {
        None
    } else {
        Some(text::to_vec(bytes))
    }
}

/// The known variables in the order and form in which C registers them.
#[derive(Debug, PartialEq, Eq)]
pub struct FfiServerVars {
    pub total_num_vars: usize,
    pub remote_addr: Option<Vec<u8>>,
    pub remote_host: Option<Vec<u8>>,
    pub remote_port: Option<Vec<u8>>,
    pub document_root: Option<Vec<u8>>,
    pub path_info: Option<Vec<u8>>,
    pub php_self: Option<Vec<u8>>,
    pub document_uri: Option<Vec<u8>>,
    pub script_filename: Option<Vec<u8>>,
    pub script_name: Option<Vec<u8>>,
    pub server_name: Option<Vec<u8>>,
    pub server_port: Option<Vec<u8>>,
    pub content_length: Option<Vec<u8>>,
    pub server_protocol: Option<Vec<u8>>,
    pub http_host: Option<Vec<u8>>,
    pub request_uri: Option<Vec<u8>>,
    pub ssl_cipher: Option<Vec<u8>>,
    pub request_scheme: &'static str,
    pub ssl_protocol: &'static str,
    pub https: &'static str,
}

/// Whether these are the variables in the form in which C registers them.
pub open spec fn is_ffi_form(v: ComputedServerVars, f: FfiServerVars) -> bool {
    &&& f.total_num_vars == v.total_num_vars
    &&& opt_view(f.remote_addr) == c_value(v.remote_addr@)
    &&& opt_view(f.remote_host) == c_value(v.remote_host@)
    &&& opt_view(f.remote_port) == c_value(v.remote_port@)
    &&& opt_view(f.document_root) == c_value(v.document_root@)
    &&& opt_view(f.path_info) == c_value(v.path_info@)
    &&& opt_view(f.php_self) == c_value(v.php_self@)
    &&& opt_view(f.document_uri) == c_value(v.document_uri@)
    &&& opt_view(f.script_filename) == c_value(v.script_filename@)
    &&& opt_view(f.script_name) == c_value(v.script_name@)
    &&& opt_view(f.server_name) == c_value(v.server_name@)
    &&& opt_view(f.server_port) == c_value(v.server_port@)
    &&& opt_view(f.content_length) == c_value(v.content_length@)
    &&& opt_view(f.server_protocol) == c_value(v.server_protocol@)
    &&& opt_view(f.http_host) == c_value(v.http_host@)
    &&& opt_view(f.request_uri) == c_value(v.request_uri@)
    &&& opt_view(f.ssl_cipher) == c_value(v.ssl_cipher@)
    &&& f.request_scheme@ == (match v.scheme {
        Scheme::Http => "http"@,
        Scheme::Https => "https"@,
    })
    &&& f.ssl_protocol@ == ""@
    &&& f.https@ == (match v.scheme {
        Scheme::Http => ""@,
        Scheme::Https => "on"@,
    })
}

impl ComputedServerVars {
    /// The variables in the form in which C registers them.
    pub fn as_ffi(&self) -> (r: FfiServerVars)
        ensures
            is_ffi_form(*self, r),
    {
        let request_scheme = match self.scheme {
            Scheme::Http => "http",
            Scheme::Https => "https",
        };
        let https = match self.scheme {
            Scheme::Http => "",
            Scheme::Https => "on",
        };
        FfiServerVars {
            total_num_vars: self.total_num_vars,
            remote_addr: c_buf(self.remote_addr.as_slice()),
            remote_host: c_buf(self.remote_host.as_slice()),
            remote_port: c_buf(self.remote_port.as_slice()),
            document_root: c_buf(self.document_root.as_slice()),
            path_info: c_buf(self.path_info.as_slice()),
            php_self: c_buf(self.php_self.as_slice()),
            document_uri: c_buf(self.document_uri.as_slice()),
            script_filename: c_buf(self.script_filename.as_slice()),
            script_name: c_buf(self.script_name.as_slice()),
            server_name: c_buf(self.server_name.as_slice()),
            server_port: c_buf(self.server_port.as_slice()),
            content_length: c_buf(self.content_length.as_slice()),
            server_protocol: c_buf(self.server_protocol.as_slice()),
            http_host: c_buf(self.http_host.as_slice()),
            request_uri: c_buf(self.request_uri.as_slice()),
            ssl_cipher: c_buf(self.ssl_cipher.as_slice()),
            request_scheme,
            ssl_protocol: "",
            https,
        }
    }
}

/// The `$_SERVER` name of a header: one known beforehand, or one made from the header's name.
#[derive(Debug, PartialEq, Eq)]
pub enum HeaderKey {
    Interned(&'static str),
    /// With a NUL at the end.
    Mangled(Vec<u8>),
}

impl HeaderKey {
    /// Whether this is the key of a header.
    pub open spec fn is_key_of(&self, name: Seq<char>) -> bool {
        match *self {
            HeaderKey::Interned(variable) => cgi::common_variable(name) == Some(variable@),
            HeaderKey::Mangled(key) => cgi::common_variable(name) is None && key@
                == cgi::mangled_key(encode_utf8(name)),
        }
    }
}

/// A header's `$_SERVER` name and its value, the values of a repeated header joined.
#[derive(Debug, PartialEq, Eq)]
pub struct HeaderVar {
    pub key: HeaderKey,
    pub value: Vec<u8>,
}

/// Everything that is registered in `$_SERVER` for one request.
#[derive(Debug, PartialEq, Eq)]
pub struct ServerVarsBatch {
    pub known: ComputedServerVars,
    pub headers: Vec<HeaderVar>,
}

/// Whether the batch holds one entry for each header, in order.
pub open spec fn covers_headers(
    h: Seq<(Seq<char>, Seq<Seq<u8>>)>,
    vars: Seq<HeaderVar>,
) -> bool {
    &&& vars.len() == h.len()
    &&& forall|i: int|
        0 <= i < vars.len() ==> (#[trigger] vars[i]).key.is_key_of(h[i].0) && vars[i].value@
            == text::joined_with(h[i].1, cgi::comma_space())
}

/// Whether this is the batch of the context's request.
pub open spec fn is_batch(ctx: RequestContext, batch: ServerVarsBatch) -> bool {
    are_server_vars(ctx, batch.known) && covers_headers(ctx.request->0.headers@, batch.headers@)
}

/// Everything that is to be registered in `$_SERVER` for the context's request, or nothing
/// without a request.
pub fn build_server_vars_batch(ctx: &RequestContext) -> (r: Option<ServerVarsBatch>)
    ensures
        match r {
            Some(batch) => is_batch(*ctx, batch),
            None => ctx.request is None,
        },
{
    let known = match compute_server_vars(ctx) {
        Some(known) => known,
        None => return None,
    };
    let request = match &ctx.request {
        Some(request) => request,
        None => return None,
    };
    let n: usize = request.headers.name_count();
    let mut vars: Vec<HeaderVar> = Vec::new();
    let mut i: usize = 0;
    while i < n
        invariant
            n == request.headers@.len(),
            i <= n,
            covers_headers(request.headers@.take(i as int), vars@),
        decreases n - i,
    {
        let name = request.headers.name_at(i);
        let value = cgi::join_header_values(request.headers.values_at(i));
        let key = match cgi::common_header_variable(name) {
            Some(variable) => HeaderKey::Interned(variable),
            None => HeaderKey::Mangled(cgi::uncommon_header_key(name)),
        };
        let ghost before = vars@;
        vars.push(HeaderVar { key, value });
        proof {
            let h = request.headers@.take(i + 1);
            assert forall|k: int| 0 <= k < vars@.len() implies (#[trigger] vars@[k]).key.is_key_of(
                h[k].0,
            ) && vars@[k].value@ == text::joined_with(h[k].1, cgi::comma_space()) by {
                if k < i {
                    assert(before[k].key.is_key_of(request.headers@.take(i as int)[k].0));
                }
            }
        }
        i = i + 1;
    }
    assert(request.headers@.take(i as int) =~= request.headers@);
    Some(ServerVarsBatch { known, headers: vars })
}

/// A header as C registers it. One of the two keys is there, never both.
#[derive(Debug, PartialEq, Eq)]
pub struct CHeaderVar {
    pub known_key: Option<&'static str>,
    pub key: Option<Vec<u8>>,
    pub value: Option<Vec<u8>>,
}

/// Whether this is the header in the form in which C registers it.
pub open spec fn is_c_header(v: HeaderVar, c: CHeaderVar) -> bool {
    &&& opt_view(c.value) == c_value(v.value@)
    &&& match v.key {
        HeaderKey::Interned(variable) => c.known_key matches Some(k) && k@ == variable@ && c.key is None,
        HeaderKey::Mangled(key) => c.known_key is None && opt_view(c.key) == Some(key@),
    }
}

/// The batch in the form in which C registers it.
#[derive(Debug, PartialEq, Eq)]
pub struct CServerVarsBatch {
    pub vars: FfiServerVars,
    pub headers: Vec<CHeaderVar>,
}

impl ServerVarsBatch {
    /// The batch in the form in which C registers it.
    pub fn as_c_batch(&self) -> (r: CServerVarsBatch)
        ensures
            is_ffi_form(self.known, r.vars),
            r.headers@.len() == self.headers@.len(),
            forall|i: int|
                0 <= i < r.headers@.len() ==> is_c_header(self.headers@[i], #[trigger] r.headers@[i]),
    {
        let mut headers: Vec<CHeaderVar> = Vec::new();
        let mut i: usize = 0;
        while i < self.headers.len()
            invariant
                i <= self.headers@.len(),
                headers@.len() == i,
                forall|k: int|
                    0 <= k < i ==> is_c_header(self.headers@[k], #[trigger] headers@[k]),
            decreases self.headers@.len() - i,
        {
            let var = &self.headers[i];
            let value = c_buf(var.value.as_slice());
            let header = match &var.key {
                HeaderKey::Interned(variable) => CHeaderVar {
                    known_key: Some(*variable),
                    key: None,
                    value,
                },
                HeaderKey::Mangled(key) => CHeaderVar {
                    known_key: None,
                    key: Some(text::to_vec(key.as_slice())),
                    value,
                },
            };
            headers.push(header);
            i = i + 1;
        }
        CServerVarsBatch { vars: self.known.as_ffi(), headers }
    }
}

/// What is to be registered in `$_SERVER` for a thread's request, or nothing where the thread
/// has no context or the context no request.
pub fn frankenrust_collect_server_vars(slots: &ContextSlots, thread_index: usize) -> (r: Option<
    ServerVarsBatch,
>)
    ensures
        match r {
            Some(batch) => slots.at(thread_index as int) matches Some(ctx) && is_batch(ctx, batch),
            None => slots.at(thread_index as int) matches Some(ctx) ==> ctx.request is None,
        },
{
    match slots.context(thread_index) {
        Some(ctx) => build_server_vars_batch(ctx),
        None => None,
    }
}

/// A string that C reads: one that is always there, or one that the request keeps.
#[derive(Debug, Clone, Copy, PartialEq, Eq)]
pub enum CText {
    Static(&'static str),
    /// The number under which the request's arena keeps it.
    Kept(usize),
}

/// What PHP is told of a request before it starts one. A missing string is one that PHP does
/// not get.
#[derive(Debug, PartialEq, Eq)]
pub struct SapiRequestInfo {
    pub request_method: Option<CText>,
    pub query_string: Option<usize>,
    pub content_length: i64,
    pub content_type: Option<usize>,
    pub path_translated: Option<usize>,
    pub request_uri: Option<usize>,
    pub proto_num: i32,
}

impl Default for SapiRequestInfo {
    fn default() -> (r: Self)
        ensures
            r.request_method is None,
            r.query_string is None,
            r.content_length == 0,
            r.content_type is None,
            r.path_translated is None,
            r.request_uri is None,
            r.proto_num == 0,
    {
        SapiRequestInfo {
            request_method: None,
            query_string: None,
            content_length: 0,
            content_type: None,
            path_translated: None,
            request_uri: None,
            proto_num: 0,
        }
    }
}

/// Whether a number stands for these bytes in an arena.
pub open spec fn keeps(arena: Seq<Seq<u8>>, handle: Option<usize>, bytes: Seq<u8>) -> bool {
    handle matches Some(h) && h < arena.len() && arena[h as int] == bytes.push(0)
}

/// Whether a method is one of those that need no copy.
pub open spec fn is_cached_method(method: Seq<char>) -> bool {
    ||| method == "GET"@ || method == "HEAD"@ || method == "POST"@ || method == "PUT"@
    ||| method == "DELETE"@ || method == "CONNECT"@ || method == "OPTIONS"@ || method == "TRACE"@
    ||| method == "PATCH"@
}

/// The string that stands for a method that needs no copy.
pub fn cached_method(method: &str) -> (r: Option<&'static str>)
    ensures
        match r {
            Some(m) => is_cached_method(method@) && m@ == method@,
            None => !is_cached_method(method@),
        },
{
    if text::same_str(method, "GET") {
        Some("GET")
    } else if text::same_str(method, "HEAD") {
        Some("HEAD")
    } else if text::same_str(method, "POST") {
        Some("POST")
    } else if text::same_str(method, "PUT") {
        Some("PUT")
    } else if text::same_str(method, "DELETE") {
        Some("DELETE")
    } else if text::same_str(method, "CONNECT") {
        Some("CONNECT")
    } else if text::same_str(method, "OPTIONS") {
        Some("OPTIONS")
    } else if text::same_str(method, "TRACE") {
        Some("TRACE")
    } else if text::same_str(method, "PATCH") {
        Some("PATCH")
    } else {
        None
    }
}

/// Whether the information and the returned credentials are those of the context's request, and
/// the context has changed only by what its arena keeps in addition.
pub open spec fn request_info_updated(
    old_ctx: RequestContext,
    new_ctx: RequestContext,
    old_info: SapiRequestInfo,
    new_info: SapiRequestInfo,
    authorization: Option<usize>,
) -> bool {
    if old_ctx.request is None {
        new_ctx == old_ctx && new_info == old_info && authorization is None
    } else {
        let request = old_ctx.request->0;
        let arena = new_ctx.arena@;
        let content_type = first_or_empty(request.headers@, "Content-Type"@);
        let credentials = first_or_empty(request.headers@, "Authorization"@);
        &&& new_ctx == (RequestContext { arena: new_ctx.arena, ..old_ctx })
        &&& old_ctx.arena@.is_prefix_of(arena)
        &&& match new_info.request_method {
            Some(CText::Static(m)) => is_cached_method(request.method@) && m@ == request.method@,
            Some(CText::Kept(h)) => !is_cached_method(request.method@) && keeps(
                arena,
                Some(h),
                encode_utf8(request.method@),
            ),
            None => false,
        }
        &&& keeps(arena, new_info.query_string, request.query@)
        &&& new_info.content_length == request.content_length
        &&& if content_type.len() == 0 {
            new_info.content_type == old_info.content_type
        } else {
            keeps(arena, new_info.content_type, content_type)
        }
        &&& if old_ctx.path_info@.len() == 0 {
            new_info.path_translated == old_info.path_translated
        } else {
            keeps(
                arena,
                new_info.path_translated,
                path::joined_path(encode_utf8(old_ctx.document_root@), old_ctx.path_info@),
            )
        }
        &&& keeps(arena, new_info.request_uri, old_ctx.request_uri@)
        &&& new_info.proto_num == request.proto_major * 1000 + request.proto_minor
        &&& if credentials.len() == 0 {
            authorization is None
        } else {
            keeps(arena, authorization, credentials)
        }
    }
}

/// Tells PHP of the context's request, and gives the credentials that came with it. Of repeated
/// headers the first counts, and an empty one is as good as none. Without a request nothing
/// happens.
pub fn update_request_info(ctx: &mut RequestContext, info: &mut SapiRequestInfo) -> (authorization:
    Option<usize>)
    ensures
        request_info_updated(*old(ctx), *final(ctx), *old(info), *final(info), authorization),
{
    let (method, query, content_length, content_type, credentials, proto_num) = match &ctx.request {
        None => return None,
        Some(request) => {
            let proto_num: i32 = (request.proto_major as i32) * 1000 + (request.proto_minor as i32);
            (
                request.method.clone(),
                text::to_vec(request.query.as_slice()),
                request.content_length,
                first_bytes(&request.headers, "Content-Type"),
                first_bytes(&request.headers, "Authorization"),
                proto_num,
            )
        },
    };
    let ghost a0 = ctx.arena@;
    match cached_method(method.as_str()) {
        Some(m) => {
            info.request_method = Some(CText::Static(m));
        },
        None => {
            let handle: usize = ctx.arena.allocate(method.as_str().as_bytes());
            info.request_method = Some(CText::Kept(handle));
        },
    }
    let query_handle: usize = ctx.arena.allocate(query.as_slice());
    info.query_string = Some(query_handle);
    info.content_length = content_length;
    if content_type.len() > 0 {
        let handle: usize = ctx.arena.allocate(content_type.as_slice());
        info.content_type = Some(handle);
    }
    if ctx.path_info.len() > 0 {
        let translated = path::sanitized_path_join_bytes(
            ctx.document_root.as_str().as_bytes(),
            ctx.path_info.as_slice(),
        );
        let handle: usize = ctx.arena.allocate(translated.as_slice());
        info.path_translated = Some(handle);
    }
    let uri_handle: usize = ctx.arena.allocate(ctx.request_uri.as_slice());
    info.request_uri = Some(uri_handle);
    info.proto_num = proto_num;
    if credentials.len() > 0 {
        let handle: usize = ctx.arena.allocate(credentials.as_slice());
        Some(handle)
    } else {
        None
    }
}

/// Tells PHP of a thread's request, and gives the credentials that came with it. Without a
/// context nothing happens.
pub fn go_update_request_info(
    slots: &mut ContextSlots,
    thread_index: usize,
    info: &mut SapiRequestInfo,
) -> (authorization: Option<usize>)
    ensures
        forall|i: int| i != thread_index ==> #[trigger] final(slots).at(i) == old(slots).at(i),
        match old(slots).at(thread_index as int) {
            Some(ctx) => final(slots).at(thread_index as int) matches Some(after)
                && request_info_updated(ctx, after, *old(info), *final(info), authorization),
            None => final(slots).at(thread_index as int) is None && *final(info) == *old(info)
                && authorization is None,
        },
{
    match slots.context_mut(thread_index) {
        Some(ctx) => update_request_info(ctx, info),
        None => None,
    }
}

/// The protocol's text reads back to the version: behind `HTTP/` stand the digits of the major
/// number, a dot, and the digits of the minor number.
pub proof fn lemma_protocol_reads_back(major: nat, minor: nat)
    ensures
        ({
            let s = protocol_name(major, minor);
            &&& s.len() > 5
            &&& s.take(5) == seq![0x48u8, 0x54u8, 0x54u8, 0x50u8, 0x2fu8]
            &&& text::first_index(s, 0x2e) matches Some(dot) && {
                &&& 5 < dot < s.len() - 1
                &&& forall|i: int| 5 <= i < dot ==> 0x30 <= #[trigger] s[i] <= 0x39
                &&& forall|i: int| dot < i < s.len() ==> 0x30 <= #[trigger] s[i] <= 0x39
                &&& text::digits_value(s.subrange(5, dot)) == major
                &&& text::digits_value(s.skip(dot + 1)) == minor
            }
        }),
{
    reveal_strlit("HTTP/");
    assert(is_ascii_chars("HTTP/"@));
    is_ascii_chars_encode_utf8("HTTP/"@);
    let prefix = encode_utf8("HTTP/"@);
    assert(prefix =~= seq![0x48u8, 0x54u8, 0x54u8, 0x50u8, 0x2fu8]);
    let s = protocol_name(major, minor);
    let a = text::decimal(major);
    let b = text::decimal(minor);
    let dot = 5 + a.len() as int;
    text::lemma_decimal_reads_back(major);
    text::lemma_decimal_reads_back(minor);
    text::lemma_first_index(s, 0x2e);
    assert(s.take(5) =~= prefix);
    assert(s.subrange(5, dot) =~= a);
    assert(s.skip(dot + 1) =~= b);
    assert(s[dot] == 0x2e);
    assert(s.contains(s[dot]));
    assert forall|i: int| 5 <= i < dot implies 0x30 <= #[trigger] s[i] <= 0x39 by {
        assert(s[i] == a[i - 5]);
    }
    assert forall|i: int| dot < i < s.len() implies 0x30 <= #[trigger] s[i] <= 0x39 by {
        assert(s[i] == b[i - dot - 1]);
    }
    let found = text::first_index(s, 0x2e)->0;
    if found < dot {
        if found < 5 {
            assert(s[found] == prefix[found]);
        } else {
            assert(0x30 <= s[found] <= 0x39);
        }
    }
    if found > dot {
        assert(s.take(found)[dot] == 0x2e);
        assert(s.take(found).contains(0x2e));
    }
}

/// Different versions are told apart by their texts.
pub proof fn lemma_protocols_are_told_apart(major: nat, minor: nat, major2: nat, minor2: nat)
    requires
        protocol_name(major, minor) == protocol_name(major2, minor2),
    ensures
        major == major2,
        minor == minor2,
{
    lemma_protocol_reads_back(major, minor);
    lemma_protocol_reads_back(major2, minor2);
}

/// The server is the one that the client asked for: with a port where one was given, and by the
/// scheme's own port, 80 or 443, where none was.
pub proof fn lemma_server_is_the_one_asked_for(host: Seq<u8>, port: Seq<u8>, scheme: Scheme)
    requires
        host.len() > 0,
        !host.contains(0x3au8),
        !host.contains(0x5bu8),
        !host.contains(0x5du8),
        !port.contains(0x3au8),
        !port.contains(0x5bu8),
        !port.contains(0x5du8),
    ensures
        ({
            let own = match scheme {
                Scheme::Http => seq![0x38u8, 0x30u8],
                Scheme::Https => seq![0x34u8, 0x34u8, 0x33u8],
            };
            let told = if port.len() == 0 {
                own
            } else {
                port
            };
            &&& server_address(host, scheme) == (host, own)
            &&& server_address(host + seq![0x3au8] + port, scheme) == (host, told)
            &&& server_address(
                seq![0x5bu8] + host + seq![0x5du8, 0x3au8] + port,
                scheme,
            ) == (host, told)
            &&& server_address(Seq::<u8>::empty(), scheme) == (Seq::<u8>::empty(), own)
        }),
{
    reveal_strlit("80");
    reveal_strlit("443");
    assert(is_ascii_chars("80"@));
    assert(is_ascii_chars("443"@));
    is_ascii_chars_encode_utf8("80"@);
    is_ascii_chars_encode_utf8("443"@);
    assert(encode_utf8("80"@) =~= seq![0x38u8, 0x30u8]);
    assert(encode_utf8("443"@) =~= seq![0x34u8, 0x34u8, 0x33u8]);
    cgi::lemma_host_port_is_what_was_written(host);
    cgi::lemma_host_port_is_what_was_written(Seq::<u8>::empty());
    cgi::lemma_host_port_of_plain_host(host, port);
    cgi::lemma_host_port_of_bracketed_host(host, port);
    assert(host + seq![0x3au8] + port =~= host.push(0x3au8) + port);
    assert(seq![0x5bu8] + host + seq![0x5du8, 0x3au8] + port =~= (seq![0x5bu8] + host).push(
        0x5du8,
    ).push(0x3au8) + port);
}

/// The variables tell of the request and nothing else, each of its own part: the peer, the
/// paths as they were found, the host, the first length header, the protocol and the target. A
/// script that reads its own path gets the script's name followed by the path info.
pub proof fn lemma_variables_tell_of_the_request(ctx: RequestContext, v: ComputedServerVars)
    requires
        are_server_vars(ctx, v),
    ensures
        ctx.request matches Some(request) && {
            &&& cgi::remote_parts(encode_utf8(request.remote_addr@)).0 == v.remote_addr@
            &&& cgi::remote_parts(encode_utf8(request.remote_addr@)).1 == v.remote_port@
            &&& v.remote_host@ == v.remote_addr@
            &&& v.document_root@ == encode_utf8(ctx.document_root@)
            &&& v.document_uri@ == ctx.doc_uri@
            &&& v.script_name@ == ctx.script_name@
            &&& v.path_info@ == ctx.path_info@
            &&& v.php_self@.len() == v.script_name@.len() + v.path_info@.len()
            &&& v.php_self@.take(v.script_name@.len() as int) == v.script_name@
            &&& v.php_self@.skip(v.script_name@.len() as int) == v.path_info@
            &&& v.script_filename@ == ctx.script_filename@
            &&& v.server_name@ == server_address(encode_utf8(request.host@), request.scheme).0
            &&& v.server_port@ == server_address(encode_utf8(request.host@), request.scheme).1
            &&& headers::first_value(request.headers@, "Content-Length"@) matches Some(length)
                ==> v.content_length@ == length
            &&& headers::first_value(request.headers@, "Content-Length"@) is None
                ==> v.content_length@.len() == 0
            &&& v.server_protocol@ == protocol_name(
                request.proto_major as nat,
                request.proto_minor as nat,
            )
            &&& v.http_host@ == encode_utf8(request.host@)
            &&& v.request_uri@ == ctx.request_uri@
            &&& v.scheme == request.scheme
            &&& 28 + request.headers@.len() <= usize::MAX ==> v.total_num_vars == 28
                + request.headers@.len()
            &&& v.total_num_vars <= 28 + request.headers@.len()
        },
{
    assert(v.php_self@.take(v.script_name@.len() as int) =~= v.script_name@);
    assert(v.php_self@.skip(v.script_name@.len() as int) =~= v.path_info@);
}

/// What a value shows as.
pub open spec fn shown(value: Option<Vec<u8>>) -> Seq<u8> {
    match value {
        Some(bytes) => bytes@,
        None => seq![],
    }
}

/// Every variable is registered under its own name with its own value; an empty one is none.
/// `HTTPS` is on exactly for a request over TLS.
pub proof fn lemma_variables_are_registered(v: ComputedServerVars, f: FfiServerVars)
    requires
        is_ffi_form(v, f),
    ensures
        f.total_num_vars == v.total_num_vars,
        shown(f.remote_addr) == v.remote_addr@ && (f.remote_addr is None) == (v.remote_addr@.len()
            == 0),
        shown(f.remote_host) == v.remote_host@ && (f.remote_host is None) == (v.remote_host@.len()
            == 0),
        shown(f.remote_port) == v.remote_port@ && (f.remote_port is None) == (v.remote_port@.len()
            == 0),
        shown(f.document_root) == v.document_root@ && (f.document_root is None) == (
        v.document_root@.len() == 0),
        shown(f.path_info) == v.path_info@ && (f.path_info is None) == (v.path_info@.len() == 0),
        shown(f.php_self) == v.php_self@ && (f.php_self is None) == (v.php_self@.len() == 0),
        shown(f.document_uri) == v.document_uri@ && (f.document_uri is None) == (
        v.document_uri@.len() == 0),
        shown(f.script_filename) == v.script_filename@ && (f.script_filename is None) == (
        v.script_filename@.len() == 0),
        shown(f.script_name) == v.script_name@ && (f.script_name is None) == (v.script_name@.len()
            == 0),
        shown(f.server_name) == v.server_name@ && (f.server_name is None) == (v.server_name@.len()
            == 0),
        shown(f.server_port) == v.server_port@ && (f.server_port is None) == (v.server_port@.len()
            == 0),
        shown(f.content_length) == v.content_length@ && (f.content_length is None) == (
        v.content_length@.len() == 0),
        shown(f.server_protocol) == v.server_protocol@ && (f.server_protocol is None) == (
        v.server_protocol@.len() == 0),
        shown(f.http_host) == v.http_host@ && (f.http_host is None) == (v.http_host@.len() == 0),
        shown(f.request_uri) == v.request_uri@ && (f.request_uri is None) == (v.request_uri@.len()
            == 0),
        shown(f.ssl_cipher) == v.ssl_cipher@ && (f.ssl_cipher is None) == (v.ssl_cipher@.len()
            == 0),
        v.scheme == Scheme::Https ==> f.https@ == seq!['o', 'n'] && f.request_scheme@ == seq![
            'h',
            't',
            't',
            'p',
            's',
        ],
        v.scheme == Scheme::Http ==> f.https@.len() == 0 && f.request_scheme@ == seq![
            'h',
            't',
            't',
            'p',
        ],
        f.ssl_protocol@.len() == 0,
{
    reveal_strlit("");
    reveal_strlit("on");
    reveal_strlit("http");
    reveal_strlit("https");
    assert("on"@ =~= seq!['o', 'n']);
    assert("http"@ =~= seq!['h', 't', 't', 'p']);
    assert("https"@ =~= seq!['h', 't', 't', 'p', 's']);
    assert(shown(None) =~= seq![]);
}

/// Every header is registered, each under the name that stands for it, with all of its values,
/// and nothing else is.
pub proof fn lemma_every_header_is_registered(
    ctx: RequestContext,
    batch: ServerVarsBatch,
    c: CServerVarsBatch,
    i: int,
)
    requires
        is_batch(ctx, batch),
        c.headers@.len() == batch.headers@.len(),
        forall|k: int|
            0 <= k < c.headers@.len() ==> is_c_header(batch.headers@[k], #[trigger] c.headers@[k]),
        0 <= i < ctx.request->0.headers@.len(),
    ensures
        ({
            let h = ctx.request->0.headers@;
            let name = h[i].0;
            let known = cgi::common_variable(name);
            &&& c.headers@.len() == h.len()
            &&& shown(c.headers@[i].value) == text::joined_with(h[i].1, seq![0x2cu8, 0x20u8])
            &&& known is Some ==> c.headers@[i].key is None && c.headers@[i].known_key is Some
                && c.headers@[i].known_key->0@ == known->0
            &&& known is None ==> c.headers@[i].known_key is None && shown(c.headers@[i].key)
                == cgi::mangled_key(encode_utf8(name))
        }),
{
    assert(is_c_header(batch.headers@[i], c.headers@[i]));
    assert(batch.headers@[i].key.is_key_of(ctx.request->0.headers@[i].0));
    assert(cgi::comma_space() =~= seq![0x2cu8, 0x20u8]);
    assert(shown(None) =~= seq![]);
}

/// What C reads under a number of the arena: the bytes before the NUL that ends them.
pub open spec fn c_text(arena: Seq<Seq<u8>>, handle: usize) -> Seq<u8> {
    arena[handle as int].drop_last()
}

/// PHP is told of the request as it came: its method, query and target, the length of its body,
/// the version as one number, and of the content type and the credentials the first that is not
/// empty. Every string ends in a NUL, and nothing that was kept before is lost.
pub proof fn lemma_php_is_told_of_the_request(
    before: RequestContext,
    after: RequestContext,
    old_info: SapiRequestInfo,
    info: SapiRequestInfo,
    authorization: Option<usize>,
)
    requires
        request_info_updated(before, after, old_info, info, authorization),
        before.request is Some,
    ensures
        ({
            let request = before.request->0;
            let arena = after.arena@;
            let types = headers::first_value(request.headers@, "Content-Type"@);
            let credentials = headers::first_value(request.headers@, "Authorization"@);
            &&& forall|i: int|
                0 <= i < before.arena@.len() ==> #[trigger] arena[i] == before.arena@[i]
            &&& info.request_method matches Some(method) && match method {
                CText::Static(m) => m@ == request.method@,
                CText::Kept(h) => h < arena.len() && arena[h as int].last() == 0 && c_text(arena, h)
                    == encode_utf8(request.method@),
            }
            &&& info.query_string matches Some(h) && h < arena.len() && arena[h as int].last() == 0
                && c_text(arena, h) == request.query@
            &&& info.request_uri matches Some(h) && h < arena.len() && arena[h as int].last() == 0
                && c_text(arena, h) == before.request_uri@
            &&& info.content_length == request.content_length
            &&& info.proto_num == 1000 * request.proto_major + request.proto_minor
            &&& types is Some && types->0.len() > 0 ==> (info.content_type matches Some(h)
                && h < arena.len() && c_text(arena, h) == types->0)
            &&& credentials is Some && credentials->0.len() > 0 ==> (authorization matches Some(
                h,
            ) && h < arena.len() && c_text(arena, h) == credentials->0)
            &&& credentials is None ==> authorization is None
            &&& before.path_info@.len() > 0 ==> (info.path_translated matches Some(h) && h
                < arena.len() && c_text(arena, h) == path::joined_path(
                encode_utf8(before.document_root@),
                before.path_info@,
            ))
            &&& after.request == before.request && after.is_done == before.is_done
        }),
{
    let arena = after.arena@;
    assert forall|i: int| 0 <= i < before.arena@.len() implies #[trigger] arena[i]
        == before.arena@[i] by {}
    assert forall|bytes: Seq<u8>| #[trigger] bytes.push(0).drop_last() == bytes by {
        assert(bytes.push(0).drop_last() =~= bytes);
    }
}

/// A script's variables are those of its request: the version that the client named, the host
/// and the port that it asked for, its address, and its own path.
pub proof fn lemma_script_gets_its_variables(
    ctx: &RequestContext,
    r: Option<ComputedServerVars>,
    f: FfiServerVars,
)
    requires
        call_ensures(compute_server_vars, (ctx,), r),
        r matches Some(v) ==> call_ensures(ComputedServerVars::as_ffi, (&v,), f),
    ensures
        r is Some <==> ctx.request is Some,
        r matches Some(v) ==> {
            let request = ctx.request->0;
            &&& text::first_index(v.server_protocol@, 0x2e) matches Some(dot)
                && text::digits_value(v.server_protocol@.subrange(5, dot)) == request.proto_major
                && text::digits_value(v.server_protocol@.skip(dot + 1)) == request.proto_minor
            &&& v.php_self@ == v.script_name@ + v.path_info@
            &&& v.script_filename@ == ctx.script_filename@
            &&& v.http_host@ == encode_utf8(request.host@)
            &&& v.request_uri@ == ctx.request_uri@
            &&& shown(f.server_protocol) == v.server_protocol@
            &&& shown(f.remote_addr) == v.remote_addr@
            &&& shown(f.remote_port) == v.remote_port@
            &&& shown(f.script_filename) == ctx.script_filename@
            &&& shown(f.script_name) == ctx.script_name@
            &&& shown(f.path_info) == ctx.path_info@
            &&& shown(f.php_self) == ctx.script_name@ + ctx.path_info@
            &&& shown(f.document_uri) == ctx.doc_uri@
            &&& shown(f.document_root) == encode_utf8(ctx.document_root@)
            &&& shown(f.http_host) == encode_utf8(request.host@)
            &&& shown(f.request_uri) == ctx.request_uri@
        },
{
    if let Some(v) = r {
        let request = ctx.request->0;
        lemma_protocol_reads_back(request.proto_major as nat, request.proto_minor as nat);
        lemma_variables_tell_of_the_request(*ctx, v);
        lemma_variables_are_registered(v, f);
    }
}

/// The text of a version is made of that version.
pub proof fn lemma_protocol_text(major: u16, minor: u16, r: Vec<u8>)
    requires
        call_ensures(server_protocol, (major, minor), r),
    ensures
        text::first_index(r@, 0x2e) matches Some(dot) && text::digits_value(r@.subrange(5, dot))
            == major && text::digits_value(r@.skip(dot + 1)) == minor,
{
    lemma_protocol_reads_back(major as nat, minor as nat);
}

} // verus!
