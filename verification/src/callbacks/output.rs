//! What a script sends: its output, its headers and its flushes.
//!
//! A thread without a context, or a context without a sink, is not serving an HTTP request: a
//! script that starts up, or a module that prints. Its output is logged and its headers are
//! taken as sent.
use vstd::prelude::*;
use vstd::utf8::*;

use crate::callbacks::log;
use crate::callbacks::log::{Level, Record};
use crate::context;
use crate::context::{ContextSlots, FlushError, IoFailure, RequestContext, ResponseSink, SinkCall};
use crate::text;
use crate::text::{COLON, SPACE};

verus! {

/// The answer to an output call: how many bytes count as written, and whether the client is
/// gone.
#[derive(Debug, Clone, Copy, PartialEq, Eq, Structural)]
pub struct UbWriteReturn {
    pub written: usize,
    pub aborted: bool,
}

/// The answer to an output call that the sink took: what it accepted, or nothing where it
/// failed.
pub open spec fn accepted_count(accepted: Option<usize>) -> usize {
    match accepted {
        Some(n) => n,
        None => 0,
    }
}

/// Whether an output call on a context is answered as it has to be. What a sink accepts is for
/// the sink to say.
pub open spec fn write_answered(ctx: RequestContext, buf: Seq<u8>, r: UbWriteReturn) -> bool {
    if ctx.is_done {
        r.written == buf.len() && r.aborted == ctx.client_had_closed
    } else {
        &&& r.aborted == ctx.closed_by_client()
        &&& match ctx.response_sink {
            Some(sink) => sink.on_record() ==> r.written == accepted_count(sink.accepts(buf)),
            None => r.written == buf.len(),
        }
    }
}

/// Whether nothing of a context has changed but its sink, which received these calls in
/// addition.
pub open spec fn sink_received(
    old_ctx: RequestContext,
    new_ctx: RequestContext,
    calls: Seq<SinkCall>,
) -> bool {
    &&& new_ctx == (RequestContext { response_sink: new_ctx.response_sink, ..old_ctx })
    &&& (new_ctx.response_sink is Some) == (old_ctx.response_sink is Some)
    &&& context::sink_on_record(old_ctx.response_sink) ==> {
        &&& context::sink_on_record(new_ctx.response_sink)
        &&& context::sink_calls(new_ctx.response_sink) == context::sink_calls(
            old_ctx.response_sink,
        ) + calls
    }
}

/// What an output call hands to the sink: the bytes, once, unless the request is done.
pub open spec fn write_calls(ctx: RequestContext, buf: Seq<u8>) -> Seq<SinkCall> {
    if !ctx.is_done && ctx.response_sink is Some {
        seq![SinkCall::Write(buf)]
    } else {
        seq![]
    }
}

/// What an output call adds to the log: the output itself where it has nowhere else to go. A
/// failed write is worth a record below the level that is kept.
pub open spec fn write_log(
    slot: Option<RequestContext>,
    buf: Seq<u8>,
    records: Seq<(int, Seq<u8>, Seq<(Seq<char>, Seq<char>)>)>,
) -> Seq<(int, Seq<u8>, Seq<(Seq<char>, Seq<char>)>)> {
    let homeless = match slot {
        Some(ctx) => !ctx.is_done && ctx.response_sink is None,
        None => true,
    };
    if homeless {
        records.push((0, buf, seq![]))
    } else {
        records
    }
}

/// Takes output of a script. After a request is done output is dropped, counted as written, and
/// answered by what was known of the client when the request was finished.
pub fn go_ub_write(
    slots: &mut ContextSlots,
    thread_index: usize,
    buf: &[u8],
    records: &mut Vec<Record>,
) -> (r: UbWriteReturn)
    ensures
        forall|i: int| i != thread_index ==> #[trigger] final(slots).at(i) == old(slots).at(i),
        match old(slots).at(thread_index as int) {
            Some(ctx) => {
                &&& write_answered(ctx, buf@, r)
                &&& final(slots).at(thread_index as int) matches Some(after) && sink_received(
                    ctx,
                    after,
                    write_calls(ctx, buf@),
                )
            },
            None => {
                &&& r.written == buf@.len()
                &&& !r.aborted
                &&& final(slots).at(thread_index as int) is None
            },
        },
        log::record_views(final(records)@) == write_log(
            old(slots).at(thread_index as int),
            buf@,
            log::record_views(old(records)@),
        ),
{
    let len: usize = buf.len();
    match slots.context_mut(thread_index) {
        None => {
            log::log_message(records, Level::info(), buf);
            UbWriteReturn { written: len, aborted: false }
        },
        Some(ctx) => {
            let ghost before = *ctx;
            if ctx.is_done {
                assert(context::sink_calls(ctx.response_sink) =~= context::sink_calls(
                    before.response_sink,
                ) + seq![]);
                return UbWriteReturn { written: len, aborted: ctx.client_had_closed };
            }
            let aborted = ctx.client_has_closed();
            match &mut ctx.response_sink {
                Some(sink) => {
                    let ghost earlier = *sink;
                    let outcome = sink.write(buf);
                    proof {
                        assert(earlier.on_record() ==> sink.calls() =~= earlier.calls()
                            + seq![SinkCall::Write(buf@)]);
                    }
                    match outcome {
                        Ok(n) => UbWriteReturn { written: n, aborted },
                        Err(failure) => {
                            log_failure(records, "write error".as_bytes(), &failure);
                            UbWriteReturn { written: 0, aborted }
                        },
                    }
                },
                None => {
                    assert(context::sink_calls(None) =~= context::sink_calls(None) + seq![]);
                    log::log_message(records, Level::info(), buf);
                    UbWriteReturn { written: len, aborted }
                },
            }
        },
    }
}

/// Logs a failed write or flush, which is worth a record below the level that is kept.
fn log_failure(records: &mut Vec<Record>, message: &[u8], failure: &IoFailure)
    ensures
        log::record_views(final(records)@) == log::record_views(old(records)@),
{
    log::log_with_attr(records, Level::debug(), message, "error", failure.message.as_str());
}

/// How many spaces stand at the front.
pub open spec fn leading_spaces(s: Seq<u8>) -> nat
    decreases s.len(),
{
    if s.len() == 0 || s[0] != SPACE {
        0
    } else {
        1 + leading_spaces(s.skip(1))
    }
}

/// The name and the value of a raw header line, cut at the first colon; spaces before the value
/// do not belong to it. There is neither without a colon or a name.
pub open spec fn header_parts(raw: Seq<u8>) -> Option<(Seq<u8>, Seq<u8>)> {
    match text::first_index(raw, COLON) {
        Some(i) => if i == 0 {
            None
        } else {
            let rest = raw.skip(i + 1);
            Some((raw.take(i), rest.skip(leading_spaces(rest) as int)))
        },
        None => None,
    }
}

/// The name and the value of a raw header line.
pub fn split_header(raw: &[u8]) -> (r: Option<(&[u8], &[u8])>)
    ensures
        match r {
            Some((name, value)) => header_parts(raw@) == Some((name@, value@)),
            None => header_parts(raw@) is None,
        },
{
    proof {
        text::lemma_first_index(raw@, COLON);
    }
    let n: usize = raw.len();
    let colon = match text::find(raw, COLON) {
        Some(i) => i,
        None => return None,
    };
    if colon == 0 {
        return None;
    }
    let mut start: usize = colon + 1;
    let ghost rest = raw@.skip(colon + 1);
    proof {
        assert(rest.skip(0) =~= rest);
    }
    while start < n && raw[start] == SPACE
        invariant
            n == raw@.len(),
            colon + 1 <= start <= n,
            rest == raw@.skip(colon + 1),
            leading_spaces(rest) == (start - colon - 1) + leading_spaces(
                rest.skip(start - colon - 1),
            ),
        decreases n - start,
    {
        assert(rest.skip(start - colon - 1)[0] == raw@[start as int]);
        assert(rest.skip(start - colon - 1).skip(1) =~= rest.skip(start - colon));
        start = start + 1;
    }
    proof {
        if start < n {
            assert(rest.skip(start - colon - 1)[0] == raw@[start as int]);
        }
        assert(leading_spaces(rest) == start - colon - 1);
        assert(rest.skip(start - colon - 1) =~= raw@.subrange(start as int, n as int));
    }
    let name = vstd::slice::slice_subrange(raw, 0, colon);
    let value = vstd::slice::slice_subrange(raw, start, n);
    assert(name@ =~= raw@.take(colon as int));
    Some((name, value))
}

/// The status that is sent: what PHP gave where it is one that HTTP knows, and 500 otherwise.
pub open spec fn effective_status(raw: int) -> u16 {
    if 100 <= raw <= 999 {
        raw as u16
    } else {
        500
    }
}

/// The status that is sent, and whether it differs from what PHP gave.
pub fn clamp_status(raw: i32) -> (r: (u16, bool))
    ensures
        r.0 == effective_status(raw as int),
        r.1 == !(100 <= raw <= 999),
{
    if 100 <= raw && raw <= 999 {
        (raw as u16, false)
    } else {
        (500, true)
    }
}

/// The calls by which raw header lines reach a sink: one for each line that has a name, in
/// order.
pub open spec fn header_calls(lines: Seq<Seq<u8>>) -> Seq<SinkCall>
    decreases lines.len(),
{
    if lines.len() == 0 {
        seq![]
    } else {
        let before = header_calls(lines.drop_last());
        match header_parts(lines.last()) {
            Some((name, value)) => before.push(SinkCall::AddHeader(text::lossy_text(name), value)),
            None => before,
        }
    }
}

/// The calls by which headers and status reach a sink. Headers of an interim response are not
/// those of the final one, so they are cleared behind it.
pub open spec fn response_head_calls(status: int, lines: Seq<Seq<u8>>) -> Seq<SinkCall> {
    let sent = header_calls(lines).push(SinkCall::WriteStatus(effective_status(status)));
    if effective_status(status) < 200 {
        sent.push(SinkCall::ClearHeaders)
    } else {
        sent
    }
}

/// What sending headers adds to the log: a warning for a status that HTTP does not know.
pub open spec fn head_log(
    slot: Option<RequestContext>,
    status: int,
    records: Seq<(int, Seq<u8>, Seq<(Seq<char>, Seq<char>)>)>,
) -> Seq<(int, Seq<u8>, Seq<(Seq<char>, Seq<char>)>)> {
    let sent = slot matches Some(ctx) && !ctx.is_done && ctx.response_sink is Some;
    if sent && !(100 <= status <= 999) {
        records.push(
            (
                4,
                encode_utf8("Invalid response status code"@),
                seq![("status_code"@, decode_utf8(log::signed_decimal(status)))],
            ),
        )
    } else {
        records
    }
}

/// Hands raw header lines to a sink. A line without a name is worth a record below the level
/// that is kept.
fn send_lines(sink: &mut Box<dyn ResponseSink>, lines: &[Vec<u8>], records: &mut Vec<Record>)
    ensures
        old(sink).on_record() ==> final(sink).on_record() && final(sink).calls() == old(
            sink,
        ).calls() + header_calls(text::views(lines@)),
        log::record_views(final(records)@) == log::record_views(old(records)@),
{
    let ghost all = text::views(lines@);
    let mut i: usize = 0;
    proof {
        assert(sink.calls() =~= old(sink).calls() + header_calls(all.take(0)));
    }
    while i < lines.len()
        invariant
            i <= lines@.len(),
            all == text::views(lines@),
            old(sink).on_record() ==> sink.on_record() && sink.calls() == old(sink).calls()
                + header_calls(all.take(i as int)),
            log::record_views(records@) == log::record_views(old(records)@),
        decreases lines@.len() - i,
    {
        let raw = lines[i].as_slice();
        proof {
            let next = all.take(i + 1);
            assert(next.drop_last() =~= all.take(i as int));
            assert(next.last() == raw@);
        }
        match split_header(raw) {
            Some((name, value)) => {
                let name = text::string_lossy(name);
                sink.add_header(name.as_str(), value);
                assert(old(sink).on_record() ==> sink.calls() =~= old(sink).calls()
                    + header_calls(all.take(i + 1)));
            },
            None => {
                let mut message = text::str_bytes("invalid header: ");
                text::append(&mut message, raw);
                log::log_message(records, Level::debug(), message.as_slice());
            },
        }
        i = i + 1;
    }
    assert(all.take(i as int) =~= all);
}

/// Sends headers and status of a script, and says whether they count as sent. After a request
/// is done they do not.
pub fn go_write_headers(
    slots: &mut ContextSlots,
    thread_index: usize,
    status: i32,
    lines: &[Vec<u8>],
    records: &mut Vec<Record>,
) -> (r: bool)
    ensures
        forall|i: int| i != thread_index ==> #[trigger] final(slots).at(i) == old(slots).at(i),
        match old(slots).at(thread_index as int) {
            Some(ctx) => {
                &&& r == !ctx.is_done
                &&& final(slots).at(thread_index as int) matches Some(after) && sink_received(
                    ctx,
                    after,
                    if ctx.is_done || ctx.response_sink is None {
                        seq![]
                    } else {
                        response_head_calls(status as int, text::views(lines@))
                    },
                )
            },
            None => r && final(slots).at(thread_index as int) is None,
        },
        log::record_views(final(records)@) == head_log(
            old(slots).at(thread_index as int),
            status as int,
            log::record_views(old(records)@),
        ),
{
    match slots.context_mut(thread_index) {
        None => true,
        Some(ctx) => {
            let ghost before = *ctx;
            assert(context::sink_calls(before.response_sink) =~= context::sink_calls(
                before.response_sink,
            ) + seq![]);
            if ctx.is_done {
                return false;
            }
            match &mut ctx.response_sink {
                None => true,
                Some(sink) => {
                    let ghost earlier = *sink;
                    send_lines(sink, lines, records);
                    let (sent, clamped) = clamp_status(status);
                    if clamped {
                        let number = log::signed_decimal_string(status as i64);
                        proof {
                            encode_utf8_decode_utf8(number@);
                        }
                        log::log_with_attr(
                            records,
                            Level::warn(),
                            "Invalid response status code".as_bytes(),
                            "status_code",
                            number.as_str(),
                        );
                    }
                    sink.write_status(sent);
                    if sent < 200 {
                        sink.clear_headers();
                    }
                    proof {
                        assert(earlier.on_record() ==> sink.calls() =~= earlier.calls()
                            + response_head_calls(status as int, text::views(lines@)));
                    }
                    true
                },
            }
        },
    }
}

/// Whether a flush reaches the sink.
pub open spec fn flush_reaches_sink(ctx: RequestContext) -> bool {
    ctx.response_sink is Some && (ctx.is_done || !ctx.closed_by_client())
}

/// The warning about a sink that cannot flush.
pub open spec fn not_a_flusher() -> Seq<u8> {
    encode_utf8(
        "the current responseWriter is not a flusher, if you are not using a custom build, please report this issue"@,
    )
}

/// Whether a flush has added to the log what it has to: at most the warning about a sink that
/// cannot flush.
pub open spec fn flush_logged(
    slot: Option<RequestContext>,
    old_records: Seq<(int, Seq<u8>, Seq<(Seq<char>, Seq<char>)>)>,
    new_records: Seq<(int, Seq<u8>, Seq<(Seq<char>, Seq<char>)>)>,
) -> bool {
    let warned = old_records.push((4, not_a_flusher(), seq![]));
    if slot matches Some(ctx) && flush_reaches_sink(ctx) {
        let sink = slot->0.response_sink->0;
        &&& new_records == old_records || new_records == warned
        &&& sink.on_record() ==> new_records == (if sink.flush_outcome()
            == context::FlushOutcome::Unsupported {
            warned
        } else {
            old_records
        })
    } else {
        new_records == old_records
    }
}

/// Flushes a script's output, and says whether the client is gone. A client that is gone is
/// reported in place of the flush; once a request is done it is not reported any more.
pub fn go_sapi_flush(
    slots: &mut ContextSlots,
    thread_index: usize,
    records: &mut Vec<Record>,
) -> (r: bool)
    ensures
        forall|i: int| i != thread_index ==> #[trigger] final(slots).at(i) == old(slots).at(i),
        match old(slots).at(thread_index as int) {
            Some(ctx) => {
                &&& r == (ctx.response_sink is Some && ctx.closed_by_client() && !ctx.is_done)
                &&& final(slots).at(thread_index as int) matches Some(after) && sink_received(
                    ctx,
                    after,
                    if flush_reaches_sink(ctx) {
                        seq![SinkCall::Flush]
                    } else {
                        seq![]
                    },
                )
            },
            None => !r && final(slots).at(thread_index as int) is None,
        },
        flush_logged(
            old(slots).at(thread_index as int),
            log::record_views(old(records)@),
            log::record_views(final(records)@),
        ),
{
    match slots.context_mut(thread_index) {
        None => false,
        Some(ctx) => {
            let ghost before = *ctx;
            assert(context::sink_calls(before.response_sink) =~= context::sink_calls(
                before.response_sink,
            ) + seq![]);
            let gone = ctx.client_has_closed();
            let done = ctx.is_done;
            match &mut ctx.response_sink {
                None => false,
                Some(sink) => {
                    if gone && !done {
                        return true;
                    }
                    let ghost earlier = *sink;
                    let outcome = sink.flush();
                    proof {
                        assert(earlier.on_record() ==> sink.calls() =~= earlier.calls()
                            + seq![SinkCall::Flush]);
                    }
                    match outcome {
                        Ok(_) => {},
                        Err(FlushError::NotAFlusher) => {
                            log::log_message(
                                records,
                                Level::warn(),
                                "the current responseWriter is not a flusher, if you are not using a custom build, please report this issue".as_bytes(),
                            );
                        },
                        Err(FlushError::Io(failure)) => {
                            log_failure(records, "flush error".as_bytes(), &failure);
                        },
                    }
                    false
                },
            }
        },
    }
}

/// A header line is cut at its first colon: what stands before it is the name, and the value is
/// all that follows but the spaces in front of it. A line without a colon, or without a name, is
/// no header.
pub proof fn lemma_header_line_is_cut(name: Seq<u8>, spaces: nat, value: Seq<u8>)
    requires
        !name.contains(0x3au8),
        value.len() == 0 || value[0] != 0x20,
    ensures
        ({
            let line = name + seq![0x3au8] + Seq::new(spaces, |i: int| 0x20u8) + value;
            &&& name.len() > 0 ==> header_parts(line) == Some((name, value))
            &&& name.len() == 0 ==> header_parts(line) is None
            &&& header_parts(name) is None
        }),
{
    let pad = Seq::new(spaces, |i: int| 0x20u8);
    let line = name + seq![0x3au8] + pad + value;
    let n = name.len() as int;
    text::lemma_first_index(line, COLON);
    text::lemma_first_index(name, COLON);
    assert(line[n] == 0x3a);
    assert(line.contains(line[n]));
    let i = text::first_index(line, COLON)->0;
    if i < n {
        assert(line[i] == name[i]);
        assert(name.contains(name[i]));
    }
    if i > n {
        assert(line.take(i)[n] == 0x3a);
        assert(line.take(i).contains(0x3au8));
    }
    assert(line.take(n) =~= name);
    assert(line.skip(n + 1) =~= pad + value);
    lemma_spaces_in_front(spaces, value);
    assert((pad + value).skip(spaces as int) =~= value);
}

proof fn lemma_spaces_in_front(spaces: nat, value: Seq<u8>)
    requires
        value.len() == 0 || value[0] != 0x20,
    ensures
        leading_spaces(Seq::new(spaces, |i: int| 0x20u8) + value) == spaces,
    decreases spaces,
{
    let pad = Seq::new(spaces, |i: int| 0x20u8);
    if spaces == 0 {
        assert(pad + value =~= value);
    } else {
        let less = Seq::new((spaces - 1) as nat, |i: int| 0x20u8);
        lemma_spaces_in_front((spaces - 1) as nat, value);
        assert((pad + value).skip(1) =~= less + value);
        assert((pad + value)[0] == 0x20);
    }
}

/// The status that a script gave is the one that is sent wherever HTTP knows it, and an error of
/// the server otherwise.
pub proof fn lemma_status_is_sent(raw: int)
    ensures
        100 <= raw <= 999 ==> effective_status(raw) == raw,
        raw < 100 || raw > 999 ==> effective_status(raw) == 500,
{
}

/// Every header line is handed on, in order and once each, and a line that is no header is passed
/// over.
pub proof fn lemma_header_lines_are_handed_on(a: Seq<Seq<u8>>, b: Seq<Seq<u8>>, line: Seq<u8>)
    ensures
        header_calls(a + b) == header_calls(a) + header_calls(b),
        header_parts(line) matches Some((name, value)) ==> header_calls(seq![line]) == seq![
            SinkCall::AddHeader(text::lossy_text(name), value),
        ],
        header_parts(line) is None ==> header_calls(seq![line]) == Seq::<SinkCall>::empty(),
    decreases b.len(),
{
    assert(seq![line].drop_last() =~= seq![]);
    assert(header_calls(Seq::<Seq<u8>>::empty()) =~= seq![]);
    assert(header_calls(seq![line]) =~= match header_parts(line) {
        Some((name, value)) => seq![SinkCall::AddHeader(text::lossy_text(name), value)],
        None => seq![],
    });
    if b.len() == 0 {
        assert(a + b =~= a);
        assert(header_calls(a) + header_calls(b) =~= header_calls(a));
    } else {
        lemma_header_lines_are_handed_on(a, b.drop_last(), line);
        assert((a + b).drop_last() =~= a + b.drop_last());
        assert((a + b).last() == b.last());
        assert(header_calls(a + b) =~= header_calls(a) + header_calls(b));
    }
}

/// The head of a response is its header lines and then its status. Only behind an interim one,
/// below 200, are the headers cleared, so that they do not go out again.
pub proof fn lemma_head_is_lines_and_status(status: int, lines: Seq<Seq<u8>>)
    ensures
        ({
            let sent = if 100 <= status <= 999 {
                status as u16
            } else {
                500u16
            };
            response_head_calls(status, lines) == header_calls(lines) + if sent < 200 {
                seq![SinkCall::WriteStatus(sent), SinkCall::ClearHeaders]
            } else {
                seq![SinkCall::WriteStatus(sent)]
            }
        }),
{
    let sent = effective_status(status);
    if sent < 200 {
        assert(response_head_calls(status, lines) =~= header_calls(lines) + seq![
            SinkCall::WriteStatus(sent),
            SinkCall::ClearHeaders,
        ]);
    } else {
        assert(response_head_calls(status, lines) =~= header_calls(lines) + seq![
            SinkCall::WriteStatus(sent),
        ]);
    }
}

/// No output is lost and none is doubled while a request lasts: it goes to the sink, whole and
/// once, or to the log where there is no sink. Behind its end output goes nowhere.
pub proof fn lemma_output_goes_somewhere(
    ctx: RequestContext,
    buf: Seq<u8>,
    r: UbWriteReturn,
    records: Seq<(int, Seq<u8>, Seq<(Seq<char>, Seq<char>)>)>,
)
    requires
        write_answered(ctx, buf, r),
    ensures
        !ctx.is_done && ctx.response_sink is Some ==> write_calls(ctx, buf) == seq![
            SinkCall::Write(buf),
        ] && write_log(Some(ctx), buf, records) == records,
        !ctx.is_done && ctx.response_sink is None ==> write_calls(ctx, buf).len() == 0
            && write_log(Some(ctx), buf, records) == records.push((0, buf, seq![])) && r.written
            == buf.len(),
        ctx.is_done ==> write_calls(ctx, buf).len() == 0 && write_log(Some(ctx), buf, records)
            == records && r.written == buf.len() && r.aborted == ctx.client_had_closed,
        !ctx.is_done ==> r.aborted == (ctx.request is Some && ctx.request->0.cancelled),
        !ctx.is_done && ctx.response_sink is Some && ctx.response_sink->0.on_record() ==> r.written
            == (match ctx.response_sink->0.accepts(buf) {
            Some(n) => n as int,
            None => 0int,
        }),
        write_log(None, buf, records) == records.push((0, buf, seq![])),
{
}

/// A flush reaches the sink unless the client is gone while the request lasts, and the log gets
/// at most one line for it: a warning, and that only where the sink cannot flush.
pub proof fn lemma_flush_reaches_the_client(
    ctx: RequestContext,
    before: Seq<(int, Seq<u8>, Seq<(Seq<char>, Seq<char>)>)>,
    after: Seq<(int, Seq<u8>, Seq<(Seq<char>, Seq<char>)>)>,
)
    requires
        flush_logged(Some(ctx), before, after),
    ensures
        flush_reaches_sink(ctx) == (ctx.response_sink is Some && (ctx.is_done || ctx.request is None
            || !ctx.request->0.cancelled)),
        after == before || (after.len() == before.len() + 1 && after.drop_last() == before
            && after.last().0 == 4),
        !flush_reaches_sink(ctx) ==> after == before,
        flush_reaches_sink(ctx) && ctx.response_sink->0.on_record() ==> (after == before) == (
        ctx.response_sink->0.flush_outcome() != context::FlushOutcome::Unsupported),
{
    let warned = before.push((4, not_a_flusher(), seq![]));
    assert(warned.drop_last() =~= before);
    assert(warned.len() == before.len() + 1);
}

/// A status that HTTP does not know is worth one warning, and only where a response is sent.
pub proof fn lemma_bad_status_is_logged(
    slot: Option<RequestContext>,
    status: int,
    records: Seq<(int, Seq<u8>, Seq<(Seq<char>, Seq<char>)>)>,
)
    ensures
        ({
            let after = head_log(slot, status, records);
            let sent = slot is Some && !slot->0.is_done && slot->0.response_sink is Some;
            &&& 100 <= status <= 999 || !sent ==> after == records
            &&& !(100 <= status <= 999) && sent ==> after.len() == records.len() + 1
                && after.drop_last() == records && after.last().0 == 4
        }),
{
    assert(head_log(slot, status, records).drop_last() =~= records
        || head_log(slot, status, records) == records);
}

/// A sink gets what it is handed, behind all that it got before, and nothing else of a context
/// changes.
pub proof fn lemma_sink_gets_what_it_is_handed(
    before: RequestContext,
    after: RequestContext,
    calls: Seq<SinkCall>,
)
    requires
        sink_received(before, after, calls),
        before.response_sink is Some,
        before.response_sink->0.on_record(),
    ensures
        after.response_sink is Some,
        after.response_sink->0.on_record(),
        after.response_sink->0.calls() == before.response_sink->0.calls() + calls,
        after.request == before.request,
        after.is_done == before.is_done,
        after.client_had_closed == before.client_had_closed,
        after.completion_signal == before.completion_signal,
        after.arena == before.arena,
        after.script_filename == before.script_filename,
{
}

/// What a script writes reaches its own sink, whole and at once, and nobody else's; what the
/// script is told of it is what the sink accepted, and whether the client is gone.
pub proof fn lemma_script_writes(
    slots: &mut ContextSlots,
    thread_index: usize,
    buf: &[u8],
    records: &mut Vec<Record>,
    r: UbWriteReturn,
    other: int,
)
    requires
        call_ensures(go_ub_write, (slots, thread_index, buf, records), r),
        other != thread_index,
    ensures
        final(slots).at(other) == old(slots).at(other),
        old(slots).at(thread_index as int) matches Some(ctx) && !ctx.is_done && ctx.response_sink is Some
            && ctx.response_sink->0.on_record() ==> {
            let ctx = old(slots).at(thread_index as int)->0;
            let after = final(slots).at(thread_index as int)->0;
            &&& final(slots).at(thread_index as int) is Some
            &&& after.response_sink->0.calls() == ctx.response_sink->0.calls().push(
                SinkCall::Write(buf@),
            )
            &&& ctx.response_sink->0.accepts(buf@) == Some(buf@.len() as usize) && buf@.len()
                <= usize::MAX ==> r.written == buf@.len()
            &&& ctx.response_sink->0.accepts(buf@) is None ==> r.written == 0
            &&& r.aborted == ctx.closed_by_client()
            &&& log::record_views(final(records)@) == log::record_views(old(records)@)
        },
        old(slots).at(thread_index as int) matches Some(ctx) && ctx.is_done ==> r.written == buf@.len()
            && r.aborted == old(slots).at(thread_index as int)->0.client_had_closed,
        old(slots).at(thread_index as int) is None ==> r.written == buf@.len() && !r.aborted
            && log::record_views(final(records)@) == log::record_views(old(records)@).push(
            (0, buf@, seq![]),
        ),
{
    if let Some(ctx) = old(slots).at(thread_index as int) {
        if !ctx.is_done && ctx.response_sink is Some && ctx.response_sink->0.on_record() {
            let calls = ctx.response_sink->0.calls();
            assert(calls + seq![SinkCall::Write(buf@)] =~= calls.push(SinkCall::Write(buf@)));
        }
    }
}

/// What a script sends as its head reaches its own sink while the request lasts: the header
/// lines in order, then the status, and behind an interim one the headers are cleared.
pub proof fn lemma_script_sends_its_head(
    slots: &mut ContextSlots,
    thread_index: usize,
    status: i32,
    lines: &[Vec<u8>],
    records: &mut Vec<Record>,
    r: bool,
    other: int,
)
    requires
        call_ensures(go_write_headers, (slots, thread_index, status, lines, records), r),
        other != thread_index,
    ensures
        final(slots).at(other) == old(slots).at(other),
        old(slots).at(thread_index as int) matches Some(ctx) ==> r == !ctx.is_done,
        old(slots).at(thread_index as int) is None ==> r,
        old(slots).at(thread_index as int) matches Some(ctx) && !ctx.is_done && ctx.response_sink is Some
            && ctx.response_sink->0.on_record() ==> {
            let ctx = old(slots).at(thread_index as int)->0;
            let after = final(slots).at(thread_index as int)->0;
            let sent = if 100 <= status <= 999 {
                status as u16
            } else {
                500u16
            };
            &&& final(slots).at(thread_index as int) is Some
            &&& after.response_sink->0.calls() == ctx.response_sink->0.calls() + header_calls(
                text::views(lines@),
            ) + if sent < 200 {
                seq![SinkCall::WriteStatus(sent), SinkCall::ClearHeaders]
            } else {
                seq![SinkCall::WriteStatus(sent)]
            }
        },
{
    lemma_head_is_lines_and_status(status as int, text::views(lines@));
    if let Some(ctx) = old(slots).at(thread_index as int) {
        if !ctx.is_done && ctx.response_sink is Some && ctx.response_sink->0.on_record() {
            let calls = ctx.response_sink->0.calls();
            let head = header_calls(text::views(lines@));
            let sent = effective_status(status as int);
            let end = if sent < 200 {
                seq![SinkCall::WriteStatus(sent), SinkCall::ClearHeaders]
            } else {
                seq![SinkCall::WriteStatus(sent)]
            };
            assert(calls + (head + end) =~= calls + head + end);
        }
    }
}

/// A flush reaches the script's own sink, unless the client is gone while the request lasts, in
/// which case that is the answer.
pub proof fn lemma_script_flushes(
    slots: &mut ContextSlots,
    thread_index: usize,
    records: &mut Vec<Record>,
    r: bool,
    other: int,
)
    requires
        call_ensures(go_sapi_flush, (slots, thread_index, records), r),
        other != thread_index,
    ensures
        final(slots).at(other) == old(slots).at(other),
        old(slots).at(thread_index as int) is None ==> !r,
        old(slots).at(thread_index as int) matches Some(ctx) ==> r == (ctx.response_sink is Some
            && !ctx.is_done && ctx.request is Some && ctx.request->0.cancelled),
        old(slots).at(thread_index as int) matches Some(ctx) && ctx.response_sink is Some
            && ctx.response_sink->0.on_record() && !r ==> {
            let ctx = old(slots).at(thread_index as int)->0;
            let after = final(slots).at(thread_index as int)->0;
            after.response_sink->0.calls() == ctx.response_sink->0.calls().push(SinkCall::Flush)
        },
{
    if let Some(ctx) = old(slots).at(thread_index as int) {
        if ctx.response_sink is Some && ctx.response_sink->0.on_record() {
            let calls = ctx.response_sink->0.calls();
            assert(calls + seq![SinkCall::Flush] =~= calls.push(SinkCall::Flush));
        }
    }
}

/// A status that HTTP does not have is replaced, and that it was is said.
pub proof fn lemma_clamped_status(raw: i32, r: (u16, bool))
    requires
        call_ensures(clamp_status, (raw,), r),
    ensures
        100 <= raw <= 999 ==> r.0 == raw && !r.1,
        raw < 100 || raw > 999 ==> r.0 == 500 && r.1,
{
}

} // verus!
