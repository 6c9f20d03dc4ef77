//! A sink that keeps the whole response until the script is done.
//!
//! Nothing leaves early, so a flush has nothing to do and always succeeds.
use vstd::prelude::*;

use crate::callbacks::output;
use crate::context::{FlushError, FlushOutcome, IoFailure, ResponseSink, SinkCall};
use crate::headers;
use crate::headers::Headers;
use crate::text;

verus! {

/// What a script has sent so far.
pub struct SharedResponseBuffer {
    /// Zero until it is set.
    pub status: u16,
    pub headers: Headers,
    pub body: Vec<u8>,
}

/// What a [`SharedResponseBuffer`] holds.
pub struct Response {
    pub status: u16,
    pub headers: Seq<(Seq<char>, Seq<Seq<u8>>)>,
    pub body: Seq<u8>,
}

impl View for SharedResponseBuffer {
    type V = Response;

    open spec fn view(&self) -> Response {
        Response { status: self.status, headers: self.headers@, body: self.body@ }
    }
}

impl Default for SharedResponseBuffer {
    fn default() -> (r: Self)
        ensures
            r@ == (Response { status: 0, headers: seq![], body: seq![] }),
    {
        let r = SharedResponseBuffer { status: 0, headers: Headers::default(), body: Vec::new() };
        assert(r@.headers =~= seq![]);
        assert(r@.body =~= seq![]);
        r
    }
}

/// What calls to a sink make of what it holds.
pub open spec fn replayed(start: Response, calls: Seq<SinkCall>) -> Response
    decreases calls.len(),
{
    if calls.len() == 0 {
        start
    } else {
        let before = replayed(start, calls.drop_last());
        match calls.last() {
            SinkCall::Write(bytes) => Response { body: before.body + bytes, ..before },
            SinkCall::AddHeader(name, value) => Response {
                headers: headers::inserted(before.headers, headers::canonical(name), value),
                ..before
            },
            SinkCall::ClearHeaders => Response { headers: seq![], ..before },
            SinkCall::WriteStatus(status) => Response { status, ..before },
            SinkCall::Flush => before,
        }
    }
}

/// Headers with those that calls to a sink add, in their order.
pub open spec fn with_headers(
    headers: Seq<(Seq<char>, Seq<Seq<u8>>)>,
    calls: Seq<SinkCall>,
) -> Seq<(Seq<char>, Seq<Seq<u8>>)>
    decreases calls.len(),
{
    if calls.len() == 0 {
        headers
    } else {
        let before = with_headers(headers, calls.drop_last());
        match calls.last() {
            SinkCall::AddHeader(name, value) => headers::inserted(
                before,
                headers::canonical(name),
                value,
            ),
            _ => before,
        }
    }
}

/// A sink that keeps what it gets. What it holds is what its calls come to.
pub struct BufferedResponseSink {
    shared: SharedResponseBuffer,
    start: Ghost<Response>,
    history: Ghost<Seq<SinkCall>>,
}

impl BufferedResponseSink {
    #[verifier::type_invariant]
    spec fn inv(&self) -> bool {
        self.shared@ == replayed(self.start@, self.history@)
    }

    /// What the sink held at first.
    pub closed spec fn initial(&self) -> Response {
        self.start@
    }

    /// A sink that goes on with a buffer.
    pub fn new(shared: SharedResponseBuffer) -> (r: Self)
        ensures
            r.calls() == Seq::<SinkCall>::empty(),
            r.initial() == shared@,
    {
        let ghost start = shared@;
        let ghost history: Seq<SinkCall> = Seq::empty();
        BufferedResponseSink { shared, start: Ghost(start), history: Ghost(history) }
    }

    /// What the sink holds.
    pub fn buffer(&self) -> (r: &SharedResponseBuffer)
        ensures
            r@ == replayed(self.initial(), self.calls()),
    {
        proof {
            use_type_invariant(self);
        }
        &self.shared
    }

    /// Takes the sink apart, and leaves a new one in its place.
    fn take_apart(&mut self) -> (r: (SharedResponseBuffer, Ghost<Response>, Ghost<Seq<SinkCall>>))
        ensures
            r.0@ == replayed(r.1@, r.2@),
            r.1@ == old(self).initial(),
            r.2@ == old(self).calls(),
    {
        let mut other = BufferedResponseSink::new(SharedResponseBuffer::default());
        std::mem::swap(&mut other, self);
        proof {
            use_type_invariant(&other);
        }
        (other.shared, other.start, other.history)
    }
}

impl ResponseSink for BufferedResponseSink {
    open spec fn on_record(&self) -> bool {
        true
    }

    closed spec fn calls(&self) -> Seq<SinkCall> {
        self.history@
    }

    open spec fn accepts(&self, buf: Seq<u8>) -> Option<usize> {
        Some(buf.len() as usize)
    }

    open spec fn flush_outcome(&self) -> FlushOutcome {
        FlushOutcome::Flushed
    }

    fn write(&mut self, buf: &[u8]) -> (r: Result<usize, IoFailure>)
        ensures
            final(self).initial() == old(self).initial(),
    {
        let n: usize = buf.len();
        let (mut shared, start, history) = self.take_apart();
        text::append(&mut shared.body, buf);
        let ghost calls = history@.push(SinkCall::Write(buf@));
        assert(calls.drop_last() =~= history@);
        *self = BufferedResponseSink { shared, start, history: Ghost(calls) };
        Ok(n)
    }

    fn add_header(&mut self, name: &str, value: &[u8])
        ensures
            final(self).initial() == old(self).initial(),
    {
        let (mut shared, start, history) = self.take_apart();
        shared.headers.insert(name, text::to_vec(value));
        let ghost calls = history@.push(SinkCall::AddHeader(name@, value@));
        assert(calls.drop_last() =~= history@);
        *self = BufferedResponseSink { shared, start, history: Ghost(calls) };
    }

    fn clear_headers(&mut self)
        ensures
            final(self).initial() == old(self).initial(),
    {
        let (mut shared, start, history) = self.take_apart();
        shared.headers.clear();
        let ghost calls = history@.push(SinkCall::ClearHeaders);
        assert(calls.drop_last() =~= history@);
        *self = BufferedResponseSink { shared, start, history: Ghost(calls) };
    }

    fn write_status(&mut self, status: u16)
        ensures
            final(self).initial() == old(self).initial(),
    {
        let (mut shared, start, history) = self.take_apart();
        shared.status = status;
        let ghost calls = history@.push(SinkCall::WriteStatus(status));
        assert(calls.drop_last() =~= history@);
        *self = BufferedResponseSink { shared, start, history: Ghost(calls) };
    }

    fn flush(&mut self) -> (r: Result<(), FlushError>)
        ensures
            final(self).initial() == old(self).initial(),
    {
        let (shared, start, history) = self.take_apart();
        let ghost calls = history@.push(SinkCall::Flush);
        assert(calls.drop_last() =~= history@);
        *self = BufferedResponseSink { shared, start, history: Ghost(calls) };
        Ok(())
    }
}

/// What a script writes comes out whole and in order: two writes hold what one write of both
/// parts would. A flush changes nothing, and clearing the headers leaves the body.
pub proof fn lemma_writes_concatenate(start: Response, calls: Seq<SinkCall>, a: Seq<u8>, b: Seq<u8>)
    ensures
        replayed(start, calls.push(SinkCall::Write(a)).push(SinkCall::Write(b))) == replayed(
            start,
            calls.push(SinkCall::Write(a + b)),
        ),
        replayed(start, calls.push(SinkCall::Flush)) == replayed(start, calls),
        replayed(start, calls.push(SinkCall::ClearHeaders)).body == replayed(start, calls).body,
{
    let first = calls.push(SinkCall::Write(a));
    let second = first.push(SinkCall::Write(b));
    let both = calls.push(SinkCall::Write(a + b));
    assert(first.drop_last() =~= calls);
    assert(second.drop_last() =~= first);
    assert(both.drop_last() =~= calls);
    assert(calls.push(SinkCall::Flush).drop_last() =~= calls);
    assert(calls.push(SinkCall::ClearHeaders).drop_last() =~= calls);
    let base = replayed(start, calls);
    assert(replayed(start, first) == (Response { body: base.body + a, ..base }));
    assert(replayed(start, second) == (Response { body: base.body + a + b, ..base }));
    assert(base.body + a + b =~= base.body + (a + b));
}

proof fn lemma_replay_header_calls(start: Response, calls: Seq<SinkCall>, lines: Seq<Seq<u8>>)
    ensures
        ({
            let before = replayed(start, calls);
            let after = replayed(start, calls + output::header_calls(lines));
            after == (Response {
                headers: with_headers(before.headers, output::header_calls(lines)),
                ..before
            })
        }),
    decreases lines.len(),
{
    let sent = output::header_calls(lines);
    if lines.len() == 0 {
        assert(calls + sent =~= calls);
    } else {
        lemma_replay_header_calls(start, calls, lines.drop_last());
        if output::header_parts(lines.last()) is Some {
            assert(sent.drop_last() =~= output::header_calls(lines.drop_last()));
            assert((calls + sent).drop_last() =~= calls + output::header_calls(lines.drop_last()));
        }
    }
}

/// A script's headers and status reach the response: it has the status that was sent, its
/// headers are those that it had with those that were sent added in order, and the body is left
/// alone. Behind an interim response no headers are left, so that none of them
/// goes out with the final one.
pub proof fn lemma_head_reaches_response(
    start: Response,
    calls: Seq<SinkCall>,
    status: int,
    lines: Seq<Seq<u8>>,
)
    ensures
        ({
            let before = replayed(start, calls);
            let after = replayed(start, calls + output::response_head_calls(status, lines));
            &&& after.status == output::effective_status(status)
            &&& after.body == before.body
            &&& output::effective_status(status) >= 200 ==> after.headers == with_headers(
                before.headers,
                output::header_calls(lines),
            )
            &&& output::effective_status(status) < 200 ==> after.headers.len() == 0
        }),
{
    let effective = output::effective_status(status);
    let head = output::header_calls(lines);
    let with_status = head.push(SinkCall::WriteStatus(effective));
    lemma_replay_header_calls(start, calls, lines);
    assert((calls + with_status).drop_last() =~= calls + head);
    assert(replayed(start, calls + with_status).status == effective);
    if effective < 200 {
        let cleared = with_status.push(SinkCall::ClearHeaders);
        assert((calls + cleared).drop_last() =~= calls + with_status);
    }
}

/// Each call to a sink does one thing: a write adds to the body, a header is added to those that
/// are there, clearing takes all headers away, a status is the last one given, and a flush
/// changes nothing.
pub proof fn lemma_each_call_counts(
    start: Response,
    calls: Seq<SinkCall>,
    bytes: Seq<u8>,
    name: Seq<char>,
    status: u16,
)
    ensures
        ({
            let before = replayed(start, calls);
            let written = replayed(start, calls.push(SinkCall::Write(bytes)));
            let headed = replayed(start, calls.push(SinkCall::AddHeader(name, bytes)));
            let cleared = replayed(start, calls.push(SinkCall::ClearHeaders));
            let answered = replayed(start, calls.push(SinkCall::WriteStatus(status)));
            &&& written.body == before.body + bytes
            &&& written.headers == before.headers && written.status == before.status
            &&& headed.body == before.body && headed.status == before.status
            &&& headers::values_of(headed.headers, headers::canonical(name)) == Some(
                match headers::values_of(before.headers, headers::canonical(name)) {
                    Some(values) => values.push(bytes),
                    None => seq![bytes],
                },
            )
            &&& cleared.headers.len() == 0
            &&& cleared.body == before.body && cleared.status == before.status
            &&& answered.status == status
            &&& answered.body == before.body && answered.headers == before.headers
            &&& replayed(start, calls.push(SinkCall::Flush)) == before
            &&& replayed(start, seq![]) == start
        }),
{
    let before = replayed(start, calls);
    assert(calls.push(SinkCall::Write(bytes)).drop_last() =~= calls);
    assert(calls.push(SinkCall::AddHeader(name, bytes)).drop_last() =~= calls);
    assert(calls.push(SinkCall::ClearHeaders).drop_last() =~= calls);
    assert(calls.push(SinkCall::WriteStatus(status)).drop_last() =~= calls);
    assert(calls.push(SinkCall::Flush).drop_last() =~= calls);
    headers::lemma_insert_then_lookup(before.headers, headers::canonical(name), bytes);
}

/// A sink that keeps everything accepts everything, and a flush of it always succeeds.
pub proof fn lemma_sink_takes_everything(sink: BufferedResponseSink, buf: Seq<u8>)
    requires
        buf.len() <= usize::MAX,
    ensures
        sink.on_record(),
        sink.accepts(buf) matches Some(n) && n == buf.len(),
        sink.flush_outcome() == FlushOutcome::Flushed,
{
}

/// What a script sends is what the response holds: behind a head with a final status and two
/// pieces of output there are that status, the headers of the head in order, and the output in
/// one piece. An interim head before it leaves nothing behind.
pub proof fn lemma_script_makes_the_response(
    interim: int,
    hints: Seq<Seq<u8>>,
    status: int,
    lines: Seq<Seq<u8>>,
    a: Seq<u8>,
    b: Seq<u8>,
)
    requires
        100 <= interim < 200,
        200 <= status <= 999,
    ensures
        ({
            let empty = Response { status: 0, headers: seq![], body: seq![] };
            let first = output::response_head_calls(interim, hints);
            let head = first + output::response_head_calls(status, lines);
            let r = replayed(empty, head.push(SinkCall::Write(a)).push(SinkCall::Write(b)));
            &&& r.status == status
            &&& r.headers == with_headers(seq![], output::header_calls(lines))
            &&& r.body == a + b
        }),
{
    let empty = Response { status: 0, headers: seq![], body: seq![] };
    let none = Seq::<SinkCall>::empty();
    let first = output::response_head_calls(interim, hints);
    let head = first + output::response_head_calls(status, lines);
    output::lemma_status_is_sent(interim);
    output::lemma_status_is_sent(status);
    lemma_head_reaches_response(empty, none, interim, hints);
    assert(none + first =~= first);
    assert(replayed(empty, none) == empty);
    lemma_head_reaches_response(empty, first, status, lines);
    assert(replayed(empty, first).headers =~= seq![]);
    let once = head.push(SinkCall::Write(a));
    lemma_each_call_counts(empty, head, a, seq![], 0);
    lemma_each_call_counts(empty, once, b, seq![], 0);
    let r = replayed(empty, once.push(SinkCall::Write(b)));
    assert(r.body =~= a + b);
}

} // verus!
