//! The request, its validation, and the context in which a script serves it.
use vstd::prelude::*;
use vstd::utf8::*;

use crate::cgi;
use crate::headers;
use crate::headers::Headers;
use crate::quote;
use crate::text;
use crate::text::SLASH;

verus! {

/// Whether a request came over TLS.
#[derive(Debug, Clone, Copy, PartialEq, Eq, Structural)]
pub enum Scheme {
    Http,
    Https,
}

/// Why a write, a read or a flush failed.
#[derive(Debug, Clone, PartialEq, Eq)]
pub struct IoFailure {
    pub message: String,
}

/// Where a request body comes from.
///
/// A source on record says what is still to come. One that is not promises no more than to keep
/// to the limit of a read.
pub trait BodySource: Send {
    /// Whether [`remaining`](Self::remaining) is what reads are to give.
    open spec fn on_record(&self) -> bool {
        false
    }

    /// The bytes that are still to be read.
    open spec fn remaining(&self) -> Seq<u8> {
        seq![]
    }

    /// Whether every read to come succeeds.
    open spec fn reliable(&self) -> bool {
        false
    }

    /// Reads at most `limit` bytes. Fewer are no sign that the body ends; none are.
    fn read(&mut self, limit: usize) -> (r: Result<Vec<u8>, IoFailure>)
        ensures
            match r {
                Ok(bytes) => bytes@.len() <= limit,
                Err(_) => true,
            },
            old(self).on_record() ==> final(self).on_record() && match r {
                Ok(bytes) => {
                    &&& old(self).remaining() == bytes@ + final(self).remaining()
                    &&& bytes@.len() == 0 && limit > 0 ==> old(self).remaining().len() == 0
                },
                Err(_) => final(self).remaining() == old(self).remaining(),
            },
            old(self).on_record() && old(self).reliable() ==> r is Ok && final(self).reliable(),
    ;
}

/// A body that has arrived whole.
#[derive(Debug)]
pub struct BufferedBody {
    bytes: Vec<u8>,
    position: usize,
}

impl BufferedBody {
    pub fn new(bytes: Vec<u8>) -> (r: Self)
        ensures
            r.on_record(),
            r.remaining() == bytes@,
            r.reliable(),
    {
        let r = BufferedBody { bytes, position: 0 };
        assert(r.remaining() =~= bytes@);
        r
    }
}

impl BodySource for BufferedBody {
    closed spec fn on_record(&self) -> bool {
        true
    }

    closed spec fn remaining(&self) -> Seq<u8> {
        if self.position <= self.bytes@.len() {
            self.bytes@.skip(self.position as int)
        } else {
            seq![]
        }
    }

    closed spec fn reliable(&self) -> bool {
        true
    }

    fn read(&mut self, limit: usize) -> (r: Result<Vec<u8>, IoFailure>) {
        let len: usize = self.bytes.len();
        if self.position >= len {
            let none: Vec<u8> = Vec::new();
            assert(old(self).remaining() =~= seq![]);
            assert(old(self).remaining() =~= none@ + self.remaining());
            return Ok(none);
        }
        let left: usize = len - self.position;
        let n: usize = if limit < left {
            limit
        } else {
            left
        };
        let end: usize = self.position + n;
        let bytes = text::copy_range(self.bytes.as_slice(), self.position, end);
        self.position = end;
        assert(old(self).remaining() =~= bytes@ + self.remaining());
        Ok(bytes)
    }
}

/// The body of a request; none at all reads as an empty one.
pub struct RequestBody {
    source: Option<Box<dyn BodySource>>,
}

impl RequestBody {
    /// Whether [`remaining`](Self::remaining) is what reads are to give.
    pub closed spec fn on_record(&self) -> bool {
        match self.source {
            Some(source) => source.on_record(),
            None => true,
        }
    }

    /// The bytes that are still to be read.
    pub closed spec fn remaining(&self) -> Seq<u8> {
        match self.source {
            Some(source) => source.remaining(),
            None => seq![],
        }
    }

    /// Whether every read to come succeeds.
    pub closed spec fn reliable(&self) -> bool {
        match self.source {
            Some(source) => source.reliable(),
            None => true,
        }
    }

    pub fn new(source: Box<dyn BodySource>) -> (r: Self)
        ensures
            r.on_record() == source.on_record(),
            r.remaining() == source.remaining(),
            r.reliable() == source.reliable(),
    {
        let held = Some(source);
        RequestBody { source: held }
    }

    /// Reads until `limit` bytes have come, the body ends or its source fails. A failure keeps
    /// what came before it.
    pub fn fill(&mut self, limit: usize) -> (r: Vec<u8>)
        ensures
            r@.len() <= limit,
            old(self).on_record() ==> {
                &&& final(self).on_record()
                &&& old(self).remaining() == r@ + final(self).remaining()
                &&& old(self).reliable() ==> final(self).reliable()
                &&& old(self).reliable() && r@.len() < limit
                    ==> final(self).remaining().len() == 0
            },
    {
        let mut out: Vec<u8> = Vec::new();
        let mut open: bool = true;
        match &mut self.source {
            None => {
                assert(old(self).remaining() =~= out@ + Seq::<u8>::empty());
            },
            Some(source) => {
                let ghost known = source.on_record();
                let ghost start = source.remaining();
                let ghost sound = source.reliable();
                assert(start =~= out@ + source.remaining());
                while open && out.len() < limit
                    invariant
                        out@.len() <= limit,
                        known ==> source.on_record() && start == out@ + source.remaining(),
                        known && sound ==> source.reliable() && (open || source.remaining().len()
                            == 0),
                    decreases
                            limit - out@.len(),
                            if open {
                                1int
                            } else {
                                0
                            },
                {
                    let ghost before = out@;
                    match source.read(limit - out.len()) {
                        Ok(mut bytes) => {
                            if bytes.len() == 0 {
                                open = false;
                            }
                            let ghost came = bytes@;
                            out.append(&mut bytes);
                            assert(out@ =~= before + came);
                            assert(known ==> start =~= out@ + source.remaining());
                        },
                        Err(_) => {
                            open = false;
                        },
                    }
                }
            },
        }
        out
    }
}

impl Default for RequestBody {
    fn default() -> (r: Self)
        ensures
            r.on_record(),
            r.remaining() == Seq::<u8>::empty(),
            r.reliable(),
    {
        RequestBody { source: None }
    }
}

/// A request, as far as serving it with a script needs it.
pub struct Request {
    pub method: String,
    /// The request target as the client is to see it in `REQUEST_URI`; nothing here derives it.
    pub raw_target: Vec<u8>,
    /// The decoded path.
    pub path: Vec<u8>,
    /// The query without its question mark.
    pub query: Vec<u8>,
    pub headers: Headers,
    /// The length of the body, -1 where it is not known. It need not agree with the header.
    pub content_length: i64,
    pub host: String,
    pub remote_addr: String,
    pub proto_major: u16,
    pub proto_minor: u16,
    pub scheme: Scheme,
    /// Whether the client has gone, as last observed by the transport.
    pub cancelled: bool,
    pub body: RequestBody,
}

impl Request {
    /// An HTTP/1.1 request with no headers, query, body or peer.
    pub fn new(method: &str, path: Vec<u8>) -> (r: Self)
        ensures
            r.method@ == method@,
            r.raw_target@.len() == 0,
            r.path == path,
            r.query@.len() == 0,
            r.headers@.len() == 0,
            r.content_length == 0,
            r.host@.len() == 0,
            r.remote_addr@.len() == 0,
            r.proto_major == 1,
            r.proto_minor == 1,
            r.scheme == Scheme::Http,
            !r.cancelled,
            r.body.remaining().len() == 0,
            r.body.on_record(),
            r.body.reliable(),
    {
        Request {
            method: method.to_owned(),
            raw_target: Vec::new(),
            path,
            query: Vec::new(),
            headers: Headers::default(),
            content_length: 0,
            host: String::new(),
            remote_addr: String::new(),
            proto_major: 1,
            proto_minor: 1,
            scheme: Scheme::Http,
            cancelled: false,
            body: RequestBody::default(),
        }
    }

    /// The request with one more header value.
    pub fn with_header(self, name: &str, value: Vec<u8>) -> (r: Self)
        ensures
            r.headers@ == headers::inserted(
                self.headers@,
                headers::canonical(name@),
                value@,
            ),
            r == (Request { headers: r.headers, ..self }),
    {
        let mut headers = self.headers;
        headers.insert(name, value);
        Request { headers, ..self }
    }

    pub fn with_raw_target(self, raw_target: Vec<u8>) -> (r: Self)
        ensures
            r == (Request { raw_target, ..self }),
    {
        Request { raw_target, ..self }
    }

    /// The request with this body length. The header stays as it is.
    pub fn with_content_length(self, content_length: i64) -> (r: Self)
        ensures
            r == (Request { content_length, ..self }),
    {
        Request { content_length, ..self }
    }

    pub fn with_query(self, query: Vec<u8>) -> (r: Self)
        ensures
            r == (Request { query, ..self }),
    {
        Request { query, ..self }
    }

    pub fn with_host(self, host: &str) -> (r: Self)
        ensures
            r.host@ == host@,
            r == (Request { host: r.host, ..self }),
    {
        Request { host: host.to_owned(), ..self }
    }

    pub fn with_remote_addr(self, remote_addr: &str) -> (r: Self)
        ensures
            r.remote_addr@ == remote_addr@,
            r == (Request { remote_addr: r.remote_addr, ..self }),
    {
        Request { remote_addr: remote_addr.to_owned(), ..self }
    }

    pub fn with_proto(self, major: u16, minor: u16) -> (r: Self)
        ensures
            r == (Request { proto_major: major, proto_minor: minor, ..self }),
    {
        Request { proto_major: major, proto_minor: minor, ..self }
    }
}

/// The answer to a request that no script is to see.
#[derive(Debug, Clone, PartialEq, Eq)]
pub struct RejectedRequest {
    pub status: u16,
    pub message: String,
}

/// Whether a length header is accepted: it is empty, or a number that is not negative.
pub open spec fn length_accepted(value: Seq<u8>) -> bool {
    value.len() == 0 || (text::parsed_i64(value) matches Some(n) && n >= 0)
}

/// The message with which a request is rejected, or nothing where it is accepted: a NUL in the
/// path comes before a bad length, and only the first length header counts.
pub open spec fn rejection(path: Seq<u8>, h: Seq<(Seq<char>, Seq<Seq<u8>>)>) -> Option<Seq<char>> {
    if path.contains(0) {
        Some("invalid request path"@)
    } else {
        match headers::first_value(h, "Content-Length"@) {
            Some(value) => if length_accepted(value) {
                None
            } else {
                Some("invalid Content-Length header: "@ + quote::quoted(value))
            },
            None => None,
        }
    }
}

/// Accepts a request, or says with which status and message to answer it.
pub fn validate_request(request: &Request) -> (r: Result<(), RejectedRequest>)
    ensures
        match r {
            Ok(_) => rejection(request.path@, request.headers@) is None,
            Err(e) => e.status == 400 && rejection(request.path@, request.headers@) == Some(
                e.message@,
            ),
        },
{
    if text::contains(request.path.as_slice(), 0) {
        return Err(RejectedRequest { status: 400, message: "invalid request path".to_owned() });
    }
    match request.headers.get_first("Content-Length") {
        Some(value) => {
            if value.len() == 0 {
                return Ok(());
            }
            match text::parse_i64(value) {
                Some(n) => {
                    if n >= 0 {
                        return Ok(());
                    }
                },
                None => {},
            }
            let mut message = "invalid Content-Length header: ".to_owned();
            let detail = quote::go_quote(value);
            message.append(detail.as_str());
            Err(RejectedRequest { status: 400, message })
        },
        None => Ok(()),
    }
}

/// Something to be done once, when a request is finished.
trait Completion: Send {
    spec fn ready(&self) -> bool;

    /// Whether doing it comes to an end. Only who has done it knows.
    spec fn ends(&self) -> bool;

    fn complete(&mut self)
        requires
            old(self).ready(),
        ensures
            !final(self).ready(),
            old(self).ends(),
    ;
}

struct Armed<F: FnOnce() + Send> {
    action: Option<F>,
}

impl<F: FnOnce() + Send> Completion for Armed<F> {
    closed spec fn ready(&self) -> bool {
        self.action is Some && call_requires(self.action->0, ())
    }

    closed spec fn ends(&self) -> bool {
        self.action matches Some(action) ==> call_ensures(action, (), ())
    }

    fn complete(&mut self) {
        let taken = self.action.take();
        if let Some(action) = taken {
            action();
        }
    }
}

/// What releases whoever waits for a response. It fires at most once: firing uses it up.
pub struct CompletionSignal {
    pending: Option<Box<dyn Completion>>,
}

impl CompletionSignal {
    #[verifier::type_invariant]
    spec fn inv(&self) -> bool {
        self.pending matches Some(action) ==> action.ready()
    }

    /// Whether there is something left to fire.
    pub closed spec fn is_pending(&self) -> bool {
        self.pending is Some
    }

    /// Whether running what is pending comes to an end. Only who has fired the signal knows.
    pub closed spec fn ends(&self) -> bool {
        self.pending matches Some(action) ==> action.ends()
    }

    /// A signal that runs `signal` when it fires.
    pub fn new<F: FnOnce() + Send + 'static>(signal: F) -> (r: Self)
        requires
            call_requires(signal, ()),
        ensures
            r.is_pending(),
            r.ends() ==> call_ensures(signal, (), ()),
    {
        CompletionSignal { pending: Some(Box::new(Armed { action: Some(signal) })) }
    }

    /// A signal for which nobody waits.
    pub fn none() -> (r: Self)
        ensures
            !r.is_pending(),
    {
        CompletionSignal { pending: None }
    }

    /// Runs what is pending, and says whether there was anything.
    pub fn fire(self) -> (fired: bool)
        ensures
            fired == self.is_pending(),
            self.ends(),
    {
        proof {
            use_type_invariant(&self);
        }
        match self.pending {
            Some(mut action) => {
                action.complete();
                true
            },
            None => false,
        }
    }
}

/// The strings that a request keeps alive for the interpreter. Each stands in a buffer of its
/// own with a NUL behind it, and none moves or changes while the request lives.
#[derive(Debug)]
pub struct RequestArena {
    buffers: Vec<Vec<u8>>,
}

impl View for RequestArena {
    type V = Seq<Seq<u8>>;

    closed spec fn view(&self) -> Seq<Seq<u8>> {
        text::views(self.buffers@)
    }
}

impl Default for RequestArena {
    fn default() -> (r: Self)
        ensures
            r@ == Seq::<Seq<u8>>::empty(),
    {
        let r = RequestArena { buffers: Vec::new() };
        assert(r@ =~= seq![]);
        r
    }
}

impl RequestArena {
    /// Keeps a copy of `bytes` with a NUL behind it and gives the number under which it is kept.
    pub fn allocate(&mut self, bytes: &[u8]) -> (handle: usize)
        ensures
            handle == old(self)@.len(),
            final(self)@ == old(self)@.push(bytes@.push(0)),
            forall|kept: int|
                0 <= kept < old(self)@.len() ==> #[trigger] final(self)@[kept] == old(self)@[kept],
    {
        let handle: usize = self.buffers.len();
        let mut buffer = text::to_vec(bytes);
        buffer.push(0);
        self.buffers.push(buffer);
        assert(self@ =~= old(self)@.push(bytes@.push(0)));
        handle
    }

    /// What is kept under a number, with its NUL.
    pub fn get(&self, handle: usize) -> (r: Option<&[u8]>)
        ensures
            match r {
                Some(bytes) => handle < self@.len() && bytes@ == self@[handle as int],
                None => handle >= self@.len(),
            },
    {
        if handle < self.buffers.len() {
            Some(self.buffers[handle].as_slice())
        } else {
            None
        }
    }
}

/// One call that a response sink received.
pub enum SinkCall {
    Write(Seq<u8>),
    AddHeader(Seq<char>, Seq<u8>),
    ClearHeaders,
    WriteStatus(u16),
    Flush,
}

/// Why a flush did nothing.
#[derive(Debug, Clone, PartialEq, Eq)]
pub enum FlushError {
    /// The sink cannot flush at all.
    NotAFlusher,
    Io(IoFailure),
}

/// How a flush ends.
#[derive(Debug, Clone, Copy, PartialEq, Eq, Structural)]
pub enum FlushOutcome {
    Flushed,
    /// The sink cannot flush at all.
    Unsupported,
    Failed,
}

/// Where a script's output goes.
///
/// A sink on record says what it received and how it answers. Nothing is promised of one that
/// is not.
pub trait ResponseSink: Send {
    /// Whether the sink's other functions say what it does.
    open spec fn on_record(&self) -> bool {
        false
    }

    /// Every call so far, in order.
    open spec fn calls(&self) -> Seq<SinkCall> {
        seq![]
    }

    /// How many bytes of a part of the body the sink would accept now, if the write succeeds.
    open spec fn accepts(&self, buf: Seq<u8>) -> Option<usize> {
        None
    }

    /// What a flush would come to now.
    open spec fn flush_outcome(&self) -> FlushOutcome {
        FlushOutcome::Unsupported
    }

    /// Takes a part of the body and says how many of its bytes were accepted.
    fn write(&mut self, buf: &[u8]) -> (r: Result<usize, IoFailure>)
        ensures
            old(self).on_record() ==> {
                &&& final(self).on_record()
                &&& final(self).calls() == old(self).calls().push(SinkCall::Write(buf@))
                &&& match r {
                    Ok(n) => old(self).accepts(buf@) == Some(n),
                    Err(_) => old(self).accepts(buf@) is None,
                }
            },
    ;

    fn add_header(&mut self, name: &str, value: &[u8])
        ensures
            old(self).on_record() ==> {
                &&& final(self).on_record()
                &&& final(self).calls() == old(self).calls().push(
                    SinkCall::AddHeader(name@, value@),
                )
            },
    ;

    fn clear_headers(&mut self)
        ensures
            old(self).on_record() ==> {
                &&& final(self).on_record()
                &&& final(self).calls() == old(self).calls().push(SinkCall::ClearHeaders)
            },
    ;

    fn write_status(&mut self, status: u16)
        ensures
            old(self).on_record() ==> {
                &&& final(self).on_record()
                &&& final(self).calls() == old(self).calls().push(SinkCall::WriteStatus(status))
            },
    ;

    fn flush(&mut self) -> (r: Result<(), FlushError>)
        ensures
            old(self).on_record() ==> {
                &&& final(self).on_record()
                &&& final(self).calls() == old(self).calls().push(SinkCall::Flush)
                &&& old(self).flush_outcome() == (match r {
                    Ok(_) => FlushOutcome::Flushed,
                    Err(FlushError::NotAFlusher) => FlushOutcome::Unsupported,
                    Err(FlushError::Io(_)) => FlushOutcome::Failed,
                })
            },
    ;
}

/// Whether what a sink receives is on record; nothing goes to one that is not there.
pub open spec fn sink_on_record(sink: Option<Box<dyn ResponseSink>>) -> bool {
    match sink {
        Some(sink) => sink.on_record(),
        None => true,
    }
}

/// The calls that a sink received; none where there is no sink.
pub open spec fn sink_calls(sink: Option<Box<dyn ResponseSink>>) -> Seq<SinkCall> {
    match sink {
        Some(sink) => sink.calls(),
        None => seq![],
    }
}

/// Everything that belongs to serving one request.
pub struct RequestContext {
    pub document_root: String,
    /// The configured split path. None is the default one; an empty one is configured as such.
    pub split_path: Option<Vec<String>>,
    pub request: Option<Request>,
    pub doc_uri: Vec<u8>,
    pub path_info: Vec<u8>,
    pub script_name: Vec<u8>,
    pub script_filename: Vec<u8>,
    pub request_uri: Vec<u8>,
    /// Whether the request has been finished from this side.
    pub is_done: bool,
    /// Whether the client was gone when the request was finished.
    pub client_had_closed: bool,
    pub completion_signal: CompletionSignal,
    pub arena: RequestArena,
    /// Where output goes; none outside an HTTP request.
    pub response_sink: Option<Box<dyn ResponseSink>>,
}

/// Whether a context is another one whose request was finished: it is done, it notes whether the
/// client was gone, and its completion signal has been fired and used up. One that was done
/// already is as it was.
pub open spec fn closed_form(before: RequestContext, after: RequestContext) -> bool {
    if before.is_done {
        after == before
    } else {
        &&& after == (RequestContext {
            is_done: true,
            client_had_closed: before.closed_by_client(),
            completion_signal: after.completion_signal,
            ..before
        })
        &&& before.completion_signal.ends()
        &&& !after.completion_signal.is_pending()
    }
}

/// A request is finished once, however often that is asked for: the second time changes nothing,
/// and there is no signal left to fire.
pub proof fn lemma_closed_once(before: RequestContext, once: RequestContext, twice: RequestContext)
    requires
        closed_form(before, once),
        closed_form(once, twice),
    ensures
        twice == once,
        once.is_done,
        !before.is_done ==> !once.completion_signal.is_pending(),
{
}

/// The split path that a context uses.
pub open spec fn effective_splits(split_path: Option<Vec<String>>) -> Seq<Seq<u8>> {
    match split_path {
        Some(entries) => text::string_bytes(entries@),
        None => seq![encode_utf8(".php"@)],
    }
}

/// The path that is looked up below the document root: `index.php` in a directory, and the path
/// itself otherwise. A path that holds a script is no directory, whatever it ends in.
pub open spec fn indexed_path(path: Seq<u8>, splits: Seq<Seq<u8>>) -> Seq<u8> {
    if path.len() > 0 && path.last() == SLASH && cgi::split_point(path, splits) is None {
        path + encode_utf8("index.php"@)
    } else {
        path
    }
}

/// The path that is looked up below the document root.
pub fn resolve_directory_index(path: &[u8], split_path: &[String]) -> (r: Vec<u8>)
    ensures
        r@ == indexed_path(path@, text::string_bytes(split_path@)),
{
    let mut r = text::to_vec(path);
    let n: usize = path.len();
    if n > 0 && path[n - 1] == SLASH && cgi::split_point_bytes(path, split_path).is_none() {
        text::append(&mut r, "index.php".as_bytes());
    }
    r
}

impl RequestContext {
    /// A context in which nothing has happened. The CGI paths are empty until
    /// [`RequestContext::resolve_paths`]; the request URI is the request's raw target.
    pub fn new(
        document_root: String,
        split_path: Option<Vec<String>>,
        request: Option<Request>,
        completion_signal: CompletionSignal,
    ) -> (r: Self)
        ensures
            r.document_root == document_root,
            r.split_path == split_path,
            r.request == request,
            r.doc_uri@.len() == 0,
            r.path_info@.len() == 0,
            r.script_name@.len() == 0,
            r.script_filename@.len() == 0,
            r.request_uri@ == (match request {
                Some(request) => request.raw_target@,
                None => seq![],
            }),
            !r.is_done,
            !r.client_had_closed,
            r.completion_signal == completion_signal,
            r.arena@.len() == 0,
            r.response_sink is None,
    {
        let request_uri = match &request {
            Some(request) => text::to_vec(request.raw_target.as_slice()),
            None => Vec::new(),
        };
        RequestContext {
            document_root,
            split_path,
            request,
            doc_uri: Vec::new(),
            path_info: Vec::new(),
            script_name: Vec::new(),
            script_filename: Vec::new(),
            request_uri,
            is_done: false,
            client_had_closed: false,
            completion_signal,
            arena: RequestArena::default(),
            response_sink: None,
        }
    }

    /// Accepts the request, or says with which status and message to answer it. Without a
    /// request there is nothing to reject.
    pub fn validate(&self) -> (r: Result<(), RejectedRequest>)
        ensures
            self.request is None ==> r is Ok,
            self.request matches Some(request) ==> match r {
                Ok(_) => rejection(request.path@, request.headers@) is None,
                Err(e) => e.status == 400 && rejection(request.path@, request.headers@) == Some(
                    e.message@,
                ),
            },
    {
        match &self.request {
            Some(request) => validate_request(request),
            None => Ok(()),
        }
    }

    /// Whether the client is gone.
    pub open spec fn closed_by_client(&self) -> bool {
        self.request matches Some(request) && request.cancelled
    }

    /// Whether the client is gone.
    pub fn client_has_closed(&self) -> (r: bool)
        ensures
            r == self.closed_by_client(),
    {
        match &self.request {
            Some(request) => request.cancelled,
            None => false,
        }
    }

    /// Finishes the request once: notes whether the client is gone, fires the completion signal
    /// and marks the request done, in this order. Whatever the script still reads stays. A
    /// request that is done stays as it is.
    pub fn close_context(&mut self)
        ensures
            closed_form(*old(self), *final(self)),
    {
        if self.is_done {
            return;
        }
        self.client_had_closed = self.client_has_closed();
        let mut signal = CompletionSignal::none();
        std::mem::swap(&mut signal, &mut self.completion_signal);
        signal.fire();
        self.is_done = true;
    }

    /// The paths of the request by the rules of CGI, below a document root.
    pub open spec fn resolved_paths(&self, document_root: Seq<u8>) -> (
        Seq<u8>,
        Seq<u8>,
        Seq<u8>,
        Seq<u8>,
    )
        recommends
            self.request is Some,
    {
        let splits = effective_splits(self.split_path);
        cgi::cgi_paths(indexed_path(self.request->0.path@, splits), splits, document_root)
    }

    /// Whether a context is another one whose script was found below a document root.
    pub open spec fn paths_resolved(
        before: RequestContext,
        document_root: Seq<u8>,
        after: RequestContext,
    ) -> bool {
        if before.request is None {
            after == before
        } else {
            &&& (
                after.doc_uri@,
                after.path_info@,
                after.script_name@,
                after.script_filename@,
            ) == before.resolved_paths(document_root)
            &&& after == (RequestContext {
                doc_uri: after.doc_uri,
                path_info: after.path_info,
                script_name: after.script_name,
                script_filename: after.script_filename,
                ..before
            })
        }
    }

    /// Finds the script for the request below the context's document root.
    pub fn resolve_paths(&mut self)
        ensures
            RequestContext::paths_resolved(
                *old(self),
                encode_utf8(old(self).document_root@),
                *final(self),
            ),
    {
        let document_root = text::str_bytes(self.document_root.as_str());
        self.resolve_paths_below(document_root.as_slice());
    }

    /// Finds the script for the request: sets the document URI, the path info, the script's name
    /// and its file name. A directory is served by its `index.php`. Without a request nothing
    /// changes.
    pub fn resolve_paths_below(&mut self, document_root: &[u8])
        ensures
            RequestContext::paths_resolved(*old(self), document_root@, *final(self)),
    {
        let paths = match &self.request {
            None => return,
            Some(request) => {
                let mut default_split: Vec<String> = Vec::new();
                default_split.push(".php".to_owned());
                assert(text::string_bytes(default_split@) =~= seq![encode_utf8(".php"@)]);
                let splits = match &self.split_path {
                    Some(entries) => entries.as_slice(),
                    None => default_split.as_slice(),
                };
                let path = resolve_directory_index(request.path.as_slice(), splits);
                cgi::split_cgi_path_bytes(path.as_slice(), splits, document_root)
            },
        };
        self.doc_uri = paths.doc_uri;
        self.path_info = paths.path_info;
        self.script_name = paths.script_name;
        self.script_filename = paths.script_filename;
    }
}

/// The context of each PHP thread, by the thread's index.
pub struct ContextSlots {
    slots: Vec<Option<RequestContext>>,
}

impl ContextSlots {
    /// The context of a thread, if it has one.
    pub closed spec fn at(&self, thread_index: int) -> Option<RequestContext> {
        if 0 <= thread_index < self.slots@.len() {
            self.slots@[thread_index]
        } else {
            None
        }
    }

    /// A table in which no thread has a context.
    pub fn new() -> (r: Self)
        ensures
            forall|i: int| #[trigger] r.at(i) is None,
    {
        ContextSlots { slots: Vec::new() }
    }

    /// Gives a thread a context in place of the one it had.
    pub fn set(&mut self, thread_index: usize, ctx: RequestContext)
        ensures
            final(self).at(thread_index as int) == Some(ctx),
            forall|i: int| i != thread_index ==> #[trigger] final(self).at(i) == old(self).at(i),
    {
        while self.slots.len() <= thread_index
            invariant
                forall|i: int| #[trigger] self.at(i) == old(self).at(i),
            decreases thread_index + 1 - self.slots@.len(),
        {
            let ghost before = *self;
            self.slots.push(None);
            assert forall|i: int| #[trigger] self.at(i) == old(self).at(i) by {
                assert(before.at(i) == old(self).at(i));
            }
        }
        let ghost before = *self;
        self.slots[thread_index] = Some(ctx);
        assert forall|i: int| i != thread_index implies #[trigger] self.at(i) == old(self).at(i) by {
            assert(before.at(i) == old(self).at(i));
        }
    }

    /// Takes a thread's context away.
    pub fn clear(&mut self, thread_index: usize)
        ensures
            final(self).at(thread_index as int) is None,
            forall|i: int| i != thread_index ==> #[trigger] final(self).at(i) == old(self).at(i),
    {
        if thread_index < self.slots.len() {
            self.slots[thread_index] = None;
        }
    }

    /// Takes a thread's context out.
    pub fn take(&mut self, thread_index: usize) -> (r: Option<RequestContext>)
        ensures
            r == old(self).at(thread_index as int),
            final(self).at(thread_index as int) is None,
            forall|i: int| i != thread_index ==> #[trigger] final(self).at(i) == old(self).at(i),
    {
        if thread_index < self.slots.len() {
            self.slots[thread_index].take()
        } else {
            None
        }
    }

    /// A thread's context.
    pub fn context(&self, thread_index: usize) -> (r: Option<&RequestContext>)
        ensures
            match r {
                Some(ctx) => self.at(thread_index as int) == Some(*ctx),
                None => self.at(thread_index as int) is None,
            },
    {
        if thread_index < self.slots.len() {
            self.slots[thread_index].as_ref()
        } else {
            None
        }
    }

    /// A thread's context, to be changed.
    pub fn context_mut(&mut self, thread_index: usize) -> (r: Option<&mut RequestContext>)
        ensures
            forall|i: int| i != thread_index ==> #[trigger] final(self).at(i) == old(self).at(i),
            match r {
                Some(ctx) => old(self).at(thread_index as int) == Some(*ctx) && final(self).at(
                    thread_index as int,
                ) == Some(*final(ctx)),
                None => old(self).at(thread_index as int) is None && final(self).at(
                    thread_index as int,
                ) is None,
            },
    {
        if thread_index < self.slots.len() {
            self.slots[thread_index].as_mut()
        } else {
            None
        }
    }

    /// Runs `f` on a thread's context.
    pub fn with_context<R, F: FnOnce(Option<&RequestContext>) -> R>(
        &self,
        thread_index: usize,
        f: F,
    ) -> (r: R)
        requires
            forall|ctx: Option<&RequestContext>| #[trigger] call_requires(f, (ctx,)),
        ensures
            match self.at(thread_index as int) {
                Some(ctx) => call_ensures(f, (Some(&ctx),), r),
                None => call_ensures(f, (None,), r),
            },
    {
        if thread_index < self.slots.len() {
            match &self.slots[thread_index] {
                Some(ctx) => f(Some(ctx)),
                None => f(None),
            }
        } else {
            f(None)
        }
    }

    /// Runs `f` on a thread's context, which it may change.
    pub fn with_context_mut<R, F: FnOnce(Option<&mut RequestContext>) -> R>(
        &mut self,
        thread_index: usize,
        f: F,
    ) -> (r: R)
        requires
            forall|ctx: Option<&mut RequestContext>| #[trigger] call_requires(f, (ctx,)),
        ensures
            forall|i: int| i != thread_index ==> #[trigger] final(self).at(i) == old(self).at(i),
            match old(self).at(thread_index as int) {
                Some(ctx) => exists|m: &mut RequestContext| #[trigger]
                    call_ensures(f, (Some(m),), r) && *m == ctx && final(self).at(
                        thread_index as int,
                    ) == Some(*final(m)),
                None => call_ensures(f, (None,), r) && final(self).at(thread_index as int) is None,
            },
    {
        if thread_index < self.slots.len() {
            match &mut self.slots[thread_index] {
                Some(ctx) => f(Some(ctx)),
                None => f(None),
            }
        } else {
            f(None)
        }
    }
}

impl Default for ContextSlots {
    fn default() -> (r: Self)
        ensures
            forall|i: int| #[trigger] r.at(i) is None,
    {
        ContextSlots::new()
    }
}

/// Every length that can be is accepted: any number from zero on that fits, written in digits,
/// with a path that holds no NUL. An empty length and none at all are accepted too.
pub proof fn lemma_possible_lengths_are_accepted(
    path: Seq<u8>,
    h: Seq<(Seq<char>, Seq<Seq<u8>>)>,
    n: nat,
)
    requires
        forall|i: int| 0 <= i < path.len() ==> #[trigger] path[i] != 0,
        n <= 0x7fff_ffff_ffff_ffff,
        headers::first_value(h, "Content-Length"@) matches Some(value) ==> value.len() == 0 || value
            == text::decimal(n) || value == seq![0x2bu8] + text::decimal(n) || (n == 0 && value
            == seq![0x2du8] + text::decimal(n)),
    ensures
        rejection(path, h) is None,
{
    text::lemma_numbers_are_parsed(n, seq![]);
    if path.contains(0) {
        let i = choose|i: int| 0 <= i < path.len() && path[i] == 0;
        assert(path[i] != 0);
    }
}

/// Every length that cannot be is rejected by name: one below zero, one that does not fit, and
/// one that is no number, and so is every path that holds a NUL, whatever the length.
pub proof fn lemma_impossible_requests_are_rejected(
    path: Seq<u8>,
    h: Seq<(Seq<char>, Seq<Seq<u8>>)>,
    n: nat,
    at: int,
)
    ensures
        0 <= at < path.len() && path[at] == 0 ==> rejection(path, h) == Some(
            "invalid request path"@,
        ),
        (forall|i: int| 0 <= i < path.len() ==> #[trigger] path[i] != 0) ==> (headers::first_value(
            h,
            "Content-Length"@,
        ) matches Some(value) ==> {
            let refused = rejection(path, h) == Some(
                "invalid Content-Length header: "@ + quote::quoted(value),
            );
            &&& n > 0 && value == seq![0x2du8] + text::decimal(n) ==> refused
            &&& n > 0x7fff_ffff_ffff_ffff && value == text::decimal(n) ==> refused
            &&& 0 < at < value.len() && !(0x30 <= value[at] <= 0x39) ==> refused
            &&& value.len() > 0 && !(0x30 <= value[0] <= 0x39) && value[0] != 0x2b && value[0]
                != 0x2d ==> refused
        }),
{
    if 0 <= at < path.len() && path[at] == 0 {
        assert(path.contains(path[at]));
    }
    if path.contains(0) {
        let i = choose|i: int| 0 <= i < path.len() && path[i] == 0;
        assert(path[i] == 0);
    }
    if let Some(value) = headers::first_value(h, "Content-Length"@) {
        text::lemma_numbers_are_parsed(n, value);
        text::lemma_decimal_reads_back(n);
    }
}

/// A path is looked up as it is, but for a directory, which is one that ends in a slash and
/// holds no script: there its `index.php` is.
pub proof fn lemma_directories_have_an_index(path: Seq<u8>, splits: Seq<Seq<u8>>)
    ensures
        path.len() == 0 || path.last() != 0x2f || cgi::split_point(path, splits) is Some
            ==> indexed_path(path, splits) == path,
        path.len() > 0 && path.last() == 0x2f && cgi::split_point(path, splits) is None
            ==> indexed_path(path, splits) == path + seq![
            0x69u8,
            0x6eu8,
            0x64u8,
            0x65u8,
            0x78u8,
            0x2eu8,
            0x70u8,
            0x68u8,
            0x70u8,
        ],
{
    reveal_strlit("index.php");
    assert(is_ascii_chars("index.php"@));
    is_ascii_chars_encode_utf8("index.php"@);
    assert(encode_utf8("index.php"@) =~= seq![
        0x69u8,
        0x6eu8,
        0x64u8,
        0x65u8,
        0x78u8,
        0x2eu8,
        0x70u8,
        0x68u8,
        0x70u8,
    ]);
}

/// Without a configured split path scripts end in `.php`.
pub proof fn lemma_scripts_end_in_php(split_path: Option<Vec<String>>)
    ensures
        split_path is None ==> effective_splits(split_path) == seq![
            seq![0x2eu8, 0x70u8, 0x68u8, 0x70u8],
        ],
        split_path matches Some(entries) ==> effective_splits(split_path).len() == entries@.len()
            && forall|i: int|
            0 <= i < entries@.len() ==> #[trigger] effective_splits(split_path)[i] == encode_utf8(
                entries@[i]@,
            ),
{
    reveal_strlit(".php");
    assert(is_ascii_chars(".php"@));
    is_ascii_chars_encode_utf8(".php"@);
    assert(encode_utf8(".php"@) =~= seq![0x2eu8, 0x70u8, 0x68u8, 0x70u8]);
}

/// A request finds its script: the path up to the first `.php`, in capitals or small letters, is
/// the script, below the document root, and what follows is its path info.
pub proof fn lemma_script_is_found(
    before: RequestContext,
    root: Seq<u8>,
    after: RequestContext,
    php: Seq<u8>,
    i: int,
)
    requires
        php == seq![0x2eu8, 0x70u8, 0x68u8, 0x70u8],
        before.request is Some,
        before.split_path is None,
        RequestContext::paths_resolved(before, root, after),
        cgi::reads_as(before.request->0.path@, php, i),
        forall|j: int|
            0 <= j < i ==> !#[trigger] cgi::reads_as(before.request->0.path@, php, j),
    ensures
        ({
            let path = before.request->0.path@;
            &&& after.doc_uri@ == path.take(i + 4)
            &&& after.path_info@ == path.skip(i + 4)
            &&& after.script_name@ == (if path[0] == 0x2f {
                path.take(i + 4)
            } else {
                seq![0x2fu8] + path.take(i + 4)
            })
            &&& after.script_filename@ == crate::path::joined_path(root, after.script_name@)
        }),
{
    let path = before.request->0.path@;
    lemma_scripts_end_in_php(before.split_path);
    let splits = effective_splits(before.split_path);
    assert(splits[0] =~= php);
    cgi::lemma_script_ends_behind_the_entry(path, splits, root, i);
    lemma_directories_have_an_index(path, splits);
    cgi::lemma_leading_slash(path.take(i + 4));
    assert(path.take(i + 4)[0] == path[0]);
}

/// A request for a directory is served by the `index.php` in it, without path info.
pub proof fn lemma_index_is_found(
    before: RequestContext,
    root: Seq<u8>,
    after: RequestContext,
    php: Seq<u8>,
)
    requires
        php == seq![0x2eu8, 0x70u8, 0x68u8, 0x70u8],
        before.request is Some,
        before.split_path is None,
        RequestContext::paths_resolved(before, root, after),
        before.request->0.path@.len() > 0,
        before.request->0.path@.last() == 0x2f,
        forall|j: int| 0 <= j ==> !#[trigger] cgi::reads_as(before.request->0.path@, php, j),
    ensures
        ({
            let index = before.request->0.path@ + seq![
                0x69u8,
                0x6eu8,
                0x64u8,
                0x65u8,
                0x78u8,
                0x2eu8,
                0x70u8,
                0x68u8,
                0x70u8,
            ];
            &&& after.doc_uri@ == index
            &&& after.path_info@.len() == 0
            &&& after.script_name@ == (if index[0] == 0x2f {
                index
            } else {
                seq![0x2fu8] + index
            })
            &&& after.script_filename@ == crate::path::joined_path(root, after.script_name@)
        }),
{
    let path = before.request->0.path@;
    lemma_scripts_end_in_php(before.split_path);
    let splits = effective_splits(before.split_path);
    assert(splits[0] =~= php);
    cgi::lemma_absent_entry_does_not_count(path, splits, root);
    lemma_directories_have_an_index(path, splits);
    let index = indexed_path(path, splits);
    let n = path.len() as int;
    assert(cgi::reads_as(index, php, n + 5)) by {
        assert(index[n + 5] == 0x2e && index[n + 6] == 0x70 && index[n + 7] == 0x68 && index[n + 8]
            == 0x70);
    }
    assert forall|j: int| 0 <= j < n + 5 implies !#[trigger] cgi::reads_as(index, php, j) by {
        assert(!cgi::reads_as(path, php, j));
        if cgi::reads_as(index, php, j) {
            assert(php[0] == 0x2e && php[1] == 0x70 && php[2] == 0x68 && php[3] == 0x70);
            if j + 4 <= n {
                assert forall|k: int| 0 <= k < 4 implies path[j + k] == #[trigger] php[k] || 0x41
                    <= path[j + k] <= 0x5a && path[j + k] + 0x20 == php[k] by {
                    assert(index[j + k] == path[j + k]);
                }
                assert(cgi::reads_as(path, php, j));
            } else if j < n {
                assert(index[n - 1] == 0x2f);
                assert(index[j + (n - 1 - j)] == php[n - 1 - j] || index[n - 1] + 0x20 == php[n - 1
                    - j]);
            } else {
                assert(index[j + 0] == php[0] || index[j] + 0x20 == php[0]);
                assert(index[n] == 0x69 && index[n + 1] == 0x6e && index[n + 2] == 0x64 && index[n
                    + 3] == 0x65 && index[n + 4] == 0x78);
            }
        }
    }
    cgi::lemma_script_ends_behind_the_entry(index, splits, root, n + 5);
    assert(index.take(n + 9) =~= index);
    assert(index.skip(n + 9).len() == 0);
    cgi::lemma_leading_slash(index);
}

/// Finishing a request notes whether the client was gone, marks the request done, uses up its
/// signal, and touches nothing that a script may still read.
pub proof fn lemma_finishing_keeps_the_request(before: RequestContext, after: RequestContext)
    requires
        closed_form(before, after),
    ensures
        after.is_done,
        !before.is_done ==> after.client_had_closed == (before.request is Some
            && before.request->0.cancelled),
        !before.is_done ==> before.completion_signal.ends()
            && !after.completion_signal.is_pending(),
        before.is_done ==> after == before,
        after.request == before.request,
        after.document_root == before.document_root,
        after.doc_uri == before.doc_uri,
        after.path_info == before.path_info,
        after.script_name == before.script_name,
        after.script_filename == before.script_filename,
        after.request_uri == before.request_uri,
        after.arena == before.arena,
        after.response_sink == before.response_sink,
{
}

/// Finding the script of a request changes nothing but the four paths, and without a request
/// nothing at all.
pub proof fn lemma_finding_the_script_keeps_the_request(
    before: RequestContext,
    root: Seq<u8>,
    after: RequestContext,
)
    requires
        RequestContext::paths_resolved(before, root, after),
    ensures
        before.request is None ==> after == before,
        after.request == before.request,
        after.document_root == before.document_root,
        after.split_path == before.split_path,
        after.request_uri == before.request_uri,
        after.is_done == before.is_done,
        after.client_had_closed == before.client_had_closed,
        after.completion_signal == before.completion_signal,
        after.arena == before.arena,
        after.response_sink == before.response_sink,
{
}

/// Validation accepts what can be and answers the rest with 400: every length from zero on that
/// fits, in digits, with a path that holds no NUL, is accepted, and a NUL in the path or a length
/// below zero is not.
pub proof fn lemma_validation(request: &Request, r: Result<(), RejectedRequest>, n: nat)
    requires
        call_ensures(validate_request, (request,), r),
    ensures
        ({
            let length = headers::first_value(request.headers@, "Content-Length"@);
            let clean = forall|i: int|
                0 <= i < request.path@.len() ==> #[trigger] request.path@[i] != 0;
            &&& clean && length is None ==> r is Ok
            &&& clean && length == Some(text::decimal(n)) && n <= 0x7fff_ffff_ffff_ffff ==> r is Ok
            &&& clean && length == Some(text::decimal(n)) && n > 0x7fff_ffff_ffff_ffff ==> r is Err
            &&& clean && n > 0 && length == Some(seq![0x2du8] + text::decimal(n)) ==> r is Err
            &&& !clean ==> r is Err
            &&& r matches Err(e) ==> e.status == 400 && rejection(request.path@, request.headers@)
                == Some(e.message@)
        }),
{
    let h = request.headers@;
    let path = request.path@;
    let length = headers::first_value(h, "Content-Length"@);
    if forall|i: int| 0 <= i < path.len() ==> #[trigger] path[i] != 0 {
        if n <= 0x7fff_ffff_ffff_ffff && (length is None || length == Some(text::decimal(n))) {
            lemma_possible_lengths_are_accepted(path, h, n);
        }
        if length is None {
            lemma_possible_lengths_are_accepted(path, h, 0);
        }
        lemma_impossible_requests_are_rejected(path, h, n, 0);
    } else {
        let i = choose|i: int| 0 <= i < path.len() && #[trigger] path[i] == 0;
        lemma_impossible_requests_are_rejected(path, h, n, i);
    }
}

/// A context begins with its request and nothing else: no paths, nothing kept, nowhere for output
/// to go, and its target is the request's.
pub proof fn lemma_context_begins_empty(
    document_root: String,
    split_path: Option<Vec<String>>,
    request: Option<Request>,
    signal: CompletionSignal,
    r: RequestContext,
)
    requires
        call_ensures(RequestContext::new, (document_root, split_path, request, signal), r),
    ensures
        r.request == request,
        r.document_root == document_root,
        r.split_path == split_path,
        request matches Some(request) ==> r.request_uri@ == request.raw_target@,
        !r.is_done,
        !r.client_had_closed,
        r.completion_signal == signal,
        r.script_filename@.len() == 0,
        r.arena@.len() == 0,
        r.response_sink is None,
{
}

} // verus!
