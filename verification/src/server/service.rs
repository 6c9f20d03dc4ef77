//! From a request to a context that a script can be run in.
use vstd::prelude::*;
use vstd::utf8::*;

use crate::callbacks::servervars;
use crate::callbacks::servervars::ComputedServerVars;
use crate::cgi;
use crate::context;
use crate::context::{CompletionSignal, Request, RequestContext};
use crate::ini::PhpIni;
use crate::server::request;
use crate::server::request::{HttpVersion, RequestHead};
use crate::server::response;
use crate::server::response::ResponseParts;
use crate::server::sink::SharedResponseBuffer;
use crate::text;

verus! {

/// How a server is set up.
#[derive(Debug)]
pub struct ServerConfig {
    /// The directory below which scripts are found, in the bytes of its name.
    pub document_root: Vec<u8>,
    pub num_threads: usize,
    pub php_ini: PhpIni,
}

/// Makes the context of a request and finds its script. A request that is not to be served is
/// answered instead: with status 400, no headers, and what is wrong with it as the body.
pub fn prepare_context(
    document_root: &[u8],
    request: Request,
    completion_signal: CompletionSignal,
) -> (r: Result<RequestContext, ResponseParts>)
    ensures
        match r {
            Ok(ctx) => {
                &&& context::rejection(request.path@, request.headers@) is None
                &&& ctx.document_root@ == text::lossy_text(document_root@)
                &&& ctx.split_path is None
                &&& ctx.request == Some(request)
                &&& ctx.request_uri@ == request.raw_target@
                &&& (
                    ctx.doc_uri@,
                    ctx.path_info@,
                    ctx.script_name@,
                    ctx.script_filename@,
                ) == ctx.resolved_paths(document_root@)
                &&& !ctx.is_done
                &&& !ctx.client_had_closed
                &&& ctx.completion_signal == completion_signal
                &&& ctx.arena@.len() == 0
                &&& ctx.response_sink is None
            },
            Err(answer) => {
                &&& context::rejection(request.path@, request.headers@) matches Some(message)
                    && answer.body@ == encode_utf8(message)
                &&& answer.status == 400
                &&& answer.headers@.len() == 0
            },
        },
{
    let mut ctx = RequestContext::new(
        text::string_lossy(document_root),
        None,
        Some(request),
        completion_signal,
    );
    ctx.resolve_paths_below(document_root);
    match ctx.validate() {
        Ok(_) => Ok(ctx),
        Err(rejected) => Err(response::reject_response(&rejected)),
    }
}

/// The response once a request is over: what its script sent, unless it could not be handed to
/// one at all.
pub fn finish_response(dispatched: bool, buffer: &SharedResponseBuffer) -> (r: ResponseParts)
    ensures
        !dispatched ==> r.status == 500 && r.headers@.len() == 0 && r.body@.len() == 0,
        dispatched ==> {
            &&& r.status == (if 100 <= buffer.status <= 999 {
                buffer.status
            } else {
                200
            })
            &&& response::header_pairs(r.headers@) == response::sent_headers(buffer.headers@)
            &&& r.body@ == buffer.body@
        },
{
    if !dispatched {
        return response::internal_error_response();
    }
    response::build_response(buffer)
}

/// A request that can be served gets a context in which its script was found and nothing has
/// happened yet, and one that cannot is answered with 400 and what is wrong with it.
pub proof fn lemma_request_is_prepared_or_answered(
    document_root: &[u8],
    request: Request,
    signal: CompletionSignal,
    r: Result<RequestContext, ResponseParts>,
)
    requires
        call_ensures(prepare_context, (document_root, request, signal), r),
    ensures
        r is Ok <==> context::rejection(request.path@, request.headers@) is None,
        r matches Ok(ctx) ==> {
            &&& ctx.request == Some(request)
            &&& ctx.request_uri@ == request.raw_target@
            &&& ctx.split_path is None
            &&& !ctx.is_done && !ctx.client_had_closed
            &&& ctx.completion_signal == signal
            &&& (
                ctx.doc_uri@,
                ctx.path_info@,
                ctx.script_name@,
                ctx.script_filename@,
            ) == ctx.resolved_paths(document_root@)
        },
        r matches Err(answer) ==> answer.status == 400 && answer.headers@.len() == 0
            && answer.body@ == encode_utf8(
            context::rejection(request.path@, request.headers@)->0,
        ),
{
}

/// The response is the script's own where the request reached one, and an error of the server
/// otherwise.
pub proof fn lemma_response_is_the_scripts(
    dispatched: bool,
    buffer: &SharedResponseBuffer,
    r: ResponseParts,
)
    requires
        call_ensures(finish_response, (dispatched, buffer), r),
    ensures
        !dispatched ==> r.status == 500 && r.body@.len() == 0 && r.headers@.len() == 0,
        dispatched && 100 <= buffer.status <= 999 ==> r.status == buffer.status,
        dispatched && !(100 <= buffer.status <= 999) ==> r.status == 200,
        dispatched ==> r.body@ == buffer.body@ && response::header_pairs(r.headers@)
            == response::sent_headers(buffer.headers@),
{
}

/// A request reaches its script and the script knows what it was asked: of a path that is sent
/// with a leading slash and first names a script at some place, the script is the path up to
/// there, below the document root, what follows is its path info, both together are what it sees
/// as its own path, and it is told the version, the target and the host as they came.
pub proof fn lemma_script_knows_its_request(
    head: &RequestHead,
    body: Vec<u8>,
    remote_addr: &str,
    request: Request,
    document_root: &[u8],
    signal: CompletionSignal,
    ctx: RequestContext,
    v: Option<ComputedServerVars>,
    php: Seq<u8>,
    i: int,
)
    requires
        php == seq![0x2eu8, 0x70u8, 0x68u8, 0x70u8],
        call_ensures(request::build_request, (head, body, remote_addr), request),
        call_ensures(
            prepare_context,
            (document_root, request, signal),
            Ok::<RequestContext, ResponseParts>(ctx),
        ),
        call_ensures(servervars::compute_server_vars, (&ctx,), v),
        ({
            let path = request::decoded(encode_utf8(head.path@));
            &&& cgi::reads_as(path, php, i)
            &&& forall|j: int| 0 <= j < i ==> !#[trigger] cgi::reads_as(path, php, j)
            &&& path[0] == 0x2f
        }),
    ensures
        ({
            let path = request::decoded(encode_utf8(head.path@));
            &&& v is Some
            &&& v->0.script_name@ == path.take(i + 4)
            &&& v->0.path_info@ == path.skip(i + 4)
            &&& v->0.php_self@ == path
            &&& v->0.script_filename@ == crate::path::joined_path(document_root@, path.take(i + 4))
            &&& head.version == HttpVersion::Http10 ==> v->0.server_protocol@ == seq![
                0x48u8,
                0x54u8,
                0x54u8,
                0x50u8,
                0x2fu8,
                0x31u8,
                0x2eu8,
                0x30u8,
            ]
            &&& head.path_and_query matches Some(target) ==> v->0.request_uri@ == encode_utf8(
                target@,
            )
            &&& v->0.http_host@ == encode_utf8(request.host@)
        }),
{
    let path = request::decoded(encode_utf8(head.path@));
    let begun = RequestContext {
        doc_uri: ctx.doc_uri,
        path_info: ctx.path_info,
        script_name: ctx.script_name,
        script_filename: ctx.script_filename,
        ..ctx
    };
    assert(RequestContext::paths_resolved(begun, document_root@, ctx));
    context::lemma_script_is_found(begun, document_root@, ctx, php, i);
    servervars::lemma_variables_tell_of_the_request(ctx, v->0);
    assert(path.take(i + 4) + path.skip(i + 4) =~= path);
    assert(v->0.php_self@ =~= v->0.script_name@ + v->0.path_info@);
    request::lemma_version_is_told(head.version);
    assert(seq![0x48u8, 0x54u8, 0x54u8, 0x50u8, 0x2fu8] + seq![0x31u8, 0x2eu8, 0x30u8] =~= seq![
        0x48u8,
        0x54u8,
        0x54u8,
        0x50u8,
        0x2fu8,
        0x31u8,
        0x2eu8,
        0x30u8,
    ]);
}

} // verus!
