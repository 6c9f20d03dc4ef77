//! From what a script sent to the response that goes out.
//!
//! Every response is made here. The transport sends header names in small letters; what is no
//! header to it is left out.
use vstd::prelude::*;
use vstd::utf8::*;

use crate::context::RejectedRequest;
use crate::headers;
use crate::server::sink::SharedResponseBuffer;
use crate::text;

verus! {

/// A response: a status, headers in order and a body.
#[derive(Debug)]
pub struct ResponseParts {
    pub status: u16,
    pub headers: Vec<(String, Vec<u8>)>,
    pub body: Vec<u8>,
}

/// The names and values of headers.
pub open spec fn header_pairs(list: Seq<(String, Vec<u8>)>) -> Seq<(Seq<char>, Seq<u8>)> {
    list.map_values(|h: (String, Vec<u8>)| (h.0@, h.1@))
}

/// `StatusCode::from_u16` takes the numbers of three digits and `StatusCode::as_u16` gives them
/// back.
#[verifier::external_body]
fn status_code(raw: u16) -> (r: Option<u16>)
    ensures
        r == (if 100 <= raw <= 999 {
            Some(raw)
        } else {
            None
        }),
{
    hyper::StatusCode::from_u16(raw).ok().map(|status| status.as_u16())
}

/// Whether the transport takes a name: one or more token characters, fewer than 65536.
pub open spec fn is_sendable_name(name: Seq<char>) -> bool {
    0 < name.len() < 65536 && headers::all_token_chars(name)
}

/// `HeaderName::from_bytes` takes a name of one or more token characters, fewer than 65536, and
/// makes it small.
#[verifier::external_body]
fn header_name(name: &str) -> (r: Option<String>)
    ensures
        match r {
            Some(sent) => is_sendable_name(name@) && sent@ == text::lower_chars(name@),
            None => !is_sendable_name(name@),
        },
{
    hyper::header::HeaderName::from_bytes(name.as_bytes()).ok().map(|name| name.as_str().to_owned())
}

/// Whether the transport takes a value: no control characters but the tab.
pub open spec fn is_sendable_value(value: Seq<u8>) -> bool {
    forall|i: int|
        0 <= i < value.len() ==> (#[trigger] value[i] >= 32 && value[i] != 127) || value[i] == 9
}

/// `HeaderValue::from_bytes` takes a value without control characters but the tab, and
/// `HeaderValue::as_bytes` gives it back.
#[verifier::external_body]
fn header_value(value: &[u8]) -> (r: Option<Vec<u8>>)
    ensures
        match r {
            Some(sent) => is_sendable_value(value@) && sent@ == value@,
            None => !is_sendable_value(value@),
        },
{
    hyper::header::HeaderValue::from_bytes(value).ok().map(|value| value.as_bytes().to_vec())
}

/// The headers that go out for one name.
pub open spec fn sent_values(name: Seq<char>, values: Seq<Seq<u8>>) -> Seq<(Seq<char>, Seq<u8>)>
    decreases values.len(),
{
    if values.len() == 0 {
        seq![]
    } else {
        let before = sent_values(name, values.drop_last());
        if is_sendable_value(values.last()) {
            before.push((text::lower_chars(name), values.last()))
        } else {
            before
        }
    }
}

/// The headers that go out: those that the transport takes, name by name and value by value.
pub open spec fn sent_headers(h: Seq<(Seq<char>, Seq<Seq<u8>>)>) -> Seq<(Seq<char>, Seq<u8>)>
    decreases h.len(),
{
    if h.len() == 0 {
        seq![]
    } else {
        let before = sent_headers(h.drop_last());
        if is_sendable_name(h.last().0) {
            before + sent_values(h.last().0, h.last().1)
        } else {
            before
        }
    }
}

/// Adds the headers of one name.
fn send_values(out: &mut Vec<(String, Vec<u8>)>, name: &str, sent: &str, values: &[Vec<u8>])
    requires
        sent@ == text::lower_chars(name@),
    ensures
        header_pairs(final(out)@) == header_pairs(old(out)@) + sent_values(
            name@,
            text::views(values@),
        ),
{
    let ghost all = text::views(values@);
    let ghost start = header_pairs(out@);
    let mut i: usize = 0;
    assert(header_pairs(out@) =~= start + sent_values(name@, all.take(0)));
    while i < values.len()
        invariant
            i <= values@.len(),
            all == text::views(values@),
            sent@ == text::lower_chars(name@),
            header_pairs(out@) == start + sent_values(name@, all.take(i as int)),
        decreases values@.len() - i,
    {
        let ghost before = out@;
        proof {
            assert(all.take(i + 1).drop_last() =~= all.take(i as int));
            assert(all.take(i + 1).last() == values@[i as int]@);
        }
        match header_value(values[i].as_slice()) {
            Some(value) => {
                let ghost v = value@;
                out.push((sent.to_owned(), value));
                assert(header_pairs(out@) =~= header_pairs(before).push((sent@, v)));
                assert(header_pairs(out@) =~= start + sent_values(name@, all.take(i + 1)));
            },
            None => {},
        }
        i = i + 1;
    }
    assert(all.take(i as int) =~= all);
}

/// The response to a request that a script served. A status that was never set, or that HTTP
/// does not know, is 200.
pub fn build_response(buffer: &SharedResponseBuffer) -> (r: ResponseParts)
    ensures
        r.status == (if 100 <= buffer.status <= 999 {
            buffer.status
        } else {
            200
        }),
        header_pairs(r.headers@) == sent_headers(buffer.headers@),
        r.body@ == buffer.body@,
{
    let status: u16 = match status_code(buffer.status) {
        Some(status) => status,
        None => 200,
    };
    let mut out: Vec<(String, Vec<u8>)> = Vec::new();
    let ghost h = buffer.headers@;
    let n: usize = buffer.headers.name_count();
    let mut i: usize = 0;
    assert(header_pairs(out@) =~= sent_headers(h.take(0)));
    while i < n
        invariant
            i <= n,
            n == h.len(),
            h == buffer.headers@,
            header_pairs(out@) == sent_headers(h.take(i as int)),
        decreases n - i,
    {
        proof {
            assert(h.take(i + 1).drop_last() =~= h.take(i as int));
            assert(h.take(i + 1).last() == h[i as int]);
        }
        let name = buffer.headers.name_at(i);
        match header_name(name) {
            Some(sent) => send_values(
                &mut out,
                name,
                sent.as_str(),
                buffer.headers.values_at(i),
            ),
            None => {},
        }
        i = i + 1;
    }
    assert(h.take(i as int) =~= h);
    ResponseParts { status, headers: out, body: text::to_vec(buffer.body.as_slice()) }
}

/// The response to a request that is not served: its status, 400 where HTTP does not know it,
/// and the message as the whole body.
pub fn reject_response(rejected: &RejectedRequest) -> (r: ResponseParts)
    ensures
        r.status == (if 100 <= rejected.status <= 999 {
            rejected.status
        } else {
            400
        }),
        r.headers@.len() == 0,
        r.body@ == encode_utf8(rejected.message@),
{
    let status: u16 = match status_code(rejected.status) {
        Some(status) => status,
        None => 400,
    };
    ResponseParts {
        status,
        headers: Vec::new(),
        body: text::str_bytes(rejected.message.as_str()),
    }
}

/// The response where a request could not be handed to a script: 500, without a body.
pub fn internal_error_response() -> (r: ResponseParts)
    ensures
        r.status == 500,
        r.headers@.len() == 0,
        r.body@.len() == 0,
{
    ResponseParts { status: 500, headers: Vec::new(), body: Vec::new() }
}

/// Every value that the transport takes goes out under its name in small letters, all of them
/// and in order; only what it does not take is left out.
pub proof fn lemma_every_value_is_sent(name: Seq<char>, values: Seq<Seq<u8>>)
    ensures
        sent_values(name, values) == values.filter(
            |v: Seq<u8>| is_sendable_value(v),
        ).map_values(|v: Seq<u8>| (text::lower_chars(name), v)),
        (forall|i: int| 0 <= i < values.len() ==> is_sendable_value(#[trigger] values[i]))
            ==> sent_values(name, values).len() == values.len(),
    decreases values.len(),
{
    let takes = |v: Seq<u8>| is_sendable_value(v);
    let paired = |v: Seq<u8>| (text::lower_chars(name), v);
    reveal(Seq::filter);
    if values.len() > 0 {
        let front = values.drop_last();
        lemma_every_value_is_sent(name, front);
        if takes(values.last()) {
            assert(values.filter(takes) =~= front.filter(takes).push(values.last()));
            assert(values.filter(takes).map_values(paired) =~= front.filter(takes).map_values(
                paired,
            ).push(paired(values.last())));
        } else {
            assert(values.filter(takes) =~= front.filter(takes));
        }
        if forall|i: int| 0 <= i < values.len() ==> is_sendable_value(#[trigger] values[i]) {
            assert(is_sendable_value(values[values.len() - 1]));
            assert forall|i: int| 0 <= i < front.len() implies is_sendable_value(
                #[trigger] front[i],
            ) by {
                assert(is_sendable_value(values[i]));
            }
        }
    }
}

proof fn lemma_sent_under_one_name(name: Seq<char>, values: Seq<Seq<u8>>, wanted: Seq<char>)
    ensures
        sent_values(name, values).filter(
            |p: (Seq<char>, Seq<u8>)| p.0 == wanted,
        ) == if text::lower_chars(name) == wanted {
            sent_values(name, values)
        } else {
            seq![]
        },
    decreases values.len(),
{
    let mine = |p: (Seq<char>, Seq<u8>)| p.0 == wanted;
    reveal(Seq::filter);
    let all = sent_values(name, values);
    if values.len() > 0 {
        let front = sent_values(name, values.drop_last());
        lemma_sent_under_one_name(name, values.drop_last(), wanted);
        if is_sendable_value(values.last()) {
            assert(all.drop_last() =~= front);
            if text::lower_chars(name) == wanted {
                assert(all.filter(mine) =~= front.push(all.last()));
            } else {
                assert(all.filter(mine) =~= seq![]);
            }
        }
    } else {
        assert(all.filter(mine) =~= seq![]);
    }
}

/// No header that the transport takes is lost, doubled or mixed up: of a response with well
/// formed headers, what goes out under a name is exactly what the script sent under it.
pub proof fn lemma_every_header_is_sent(h: Seq<(Seq<char>, Seq<Seq<u8>>)>, i: int)
    requires
        headers::well_formed(h),
        0 <= i < h.len(),
        is_sendable_name(h[i].0),
    ensures
        sent_headers(h).filter(
            |p: (Seq<char>, Seq<u8>)| p.0 == text::lower_chars(h[i].0),
        ) == h[i].1.filter(|v: Seq<u8>| is_sendable_value(v)).map_values(
            |v: Seq<u8>| (text::lower_chars(h[i].0), v),
        ),
    decreases h.len(),
{
    let wanted = text::lower_chars(h[i].0);
    lemma_every_value_is_sent(h[i].0, h[i].1);
    lemma_sent_from_front(h, i, h.len() as int);
    assert(h.take(h.len() as int) =~= h);
}

proof fn lemma_sent_from_front(h: Seq<(Seq<char>, Seq<Seq<u8>>)>, i: int, n: int)
    requires
        headers::well_formed(h),
        0 <= i < h.len(),
        0 <= n <= h.len(),
        is_sendable_name(h[i].0),
    ensures
        sent_headers(h.take(n)).filter(
            |p: (Seq<char>, Seq<u8>)| p.0 == text::lower_chars(h[i].0),
        ) == if i < n {
            sent_values(h[i].0, h[i].1)
        } else {
            seq![]
        },
    decreases n,
{
    let wanted = text::lower_chars(h[i].0);
    let mine = |p: (Seq<char>, Seq<u8>)| p.0 == wanted;
    if n == 0 {
        reveal(Seq::filter);
        assert(sent_headers(h.take(0)).filter(mine) =~= seq![]);
    } else {
        lemma_sent_from_front(h, i, n - 1);
        let (name, values) = h[n - 1];
        assert(h.take(n).drop_last() =~= h.take(n - 1));
        assert(h.take(n).last() == h[n - 1]);
        let front = sent_headers(h.take(n - 1));
        if is_sendable_name(name) {
            let own = sent_values(name, values);
            Seq::filter_distributes_over_add(front, own, mine);
            lemma_sent_under_one_name(name, values, wanted);
            if n - 1 != i && text::lower_chars(name) == wanted {
                headers::lemma_canonical_ignores_case(name, h[i].0);
                assert(headers::canonical(h[n - 1].0) == h[n - 1].0);
                assert(headers::canonical(h[i].0) == h[i].0);
                assert(h[n - 1].0 != h[i].0);
                assert(false);
            }
            if i == n - 1 {
                assert(front.filter(mine) + own =~= own);
            } else {
                assert(front.filter(mine) + seq![] =~= front.filter(mine));
            }
        } else {
            assert(i != n - 1);
        }
    }
}

/// Nothing goes out that was not sent: each header has the name of one that the script sent, in
/// small letters, with one of its values.
pub proof fn lemma_only_sent_headers_go_out(h: Seq<(Seq<char>, Seq<Seq<u8>>)>, k: int)
    requires
        0 <= k < sent_headers(h).len(),
    ensures
        exists|i: int|
            0 <= i < h.len() && is_sendable_name((#[trigger] h[i]).0) && sent_headers(h)[k].0
                == text::lower_chars(h[i].0) && h[i].1.contains(sent_headers(h)[k].1)
                && is_sendable_value(sent_headers(h)[k].1),
    decreases h.len(),
{
    if h.len() > 0 {
        let front = sent_headers(h.drop_last());
        if k < front.len() {
            lemma_only_sent_headers_go_out(h.drop_last(), k);
            let i = choose|i: int|
                0 <= i < h.drop_last().len() && is_sendable_name((#[trigger] h.drop_last()[i]).0)
                    && front[k].0 == text::lower_chars(h.drop_last()[i].0)
                    && h.drop_last()[i].1.contains(front[k].1) && is_sendable_value(front[k].1);
            assert(h[i] == h.drop_last()[i]);
            assert(sent_headers(h)[k] == front[k]);
        } else {
            let (name, values) = h.last();
            let own = sent_values(name, values);
            assert(sent_headers(h)[k] == own[k - front.len()]);
            lemma_sent_value_is_one(name, values, k - front.len());
            assert(h[h.len() - 1] == h.last());
        }
    }
}

proof fn lemma_sent_value_is_one(name: Seq<char>, values: Seq<Seq<u8>>, k: int)
    requires
        0 <= k < sent_values(name, values).len(),
    ensures
        sent_values(name, values)[k].0 == text::lower_chars(name),
        values.contains(sent_values(name, values)[k].1),
        is_sendable_value(sent_values(name, values)[k].1),
    decreases values.len(),
{
    if values.len() > 0 {
        let front = sent_values(name, values.drop_last());
        if k < front.len() {
            lemma_sent_value_is_one(name, values.drop_last(), k);
            let i = choose|i: int|
                0 <= i < values.drop_last().len() && values.drop_last()[i] == front[k].1;
            assert(values[i] == front[k].1);
            assert(sent_values(name, values)[k] == front[k]);
        } else {
            assert(values[values.len() - 1] == sent_values(name, values)[k].1);
        }
    }
}

/// Headers go out in the order in which their names came.
pub proof fn lemma_headers_go_out_in_order(
    a: Seq<(Seq<char>, Seq<Seq<u8>>)>,
    b: Seq<(Seq<char>, Seq<Seq<u8>>)>,
)
    ensures
        sent_headers(a + b) == sent_headers(a) + sent_headers(b),
        a.len() == 1 ==> sent_headers(a) == if is_sendable_name(a[0].0) {
            sent_values(a[0].0, a[0].1)
        } else {
            seq![]
        },
    decreases b.len(),
{
    if a.len() == 1 {
        assert(a.drop_last() =~= seq![]);
        assert(sent_headers(a.drop_last()) =~= seq![]);
        assert(sent_headers(a) =~= if is_sendable_name(a[0].0) {
            sent_values(a[0].0, a[0].1)
        } else {
            seq![]
        });
    }
    if b.len() == 0 {
        assert(a + b =~= a);
        assert(sent_headers(a) + sent_headers(b) =~= sent_headers(a));
    } else {
        lemma_headers_go_out_in_order(a, b.drop_last());
        assert((a + b).drop_last() =~= a + b.drop_last());
        assert((a + b).last() == b.last());
        assert(sent_headers(a + b) =~= sent_headers(a) + sent_headers(b));
    }
}

/// A response carries what the script sent: its status wherever HTTP has such a one and 200
/// otherwise, its body byte for byte, and under each name exactly the values that it sent and
/// that the transport takes.
pub proof fn lemma_response_carries_what_was_sent(
    buffer: &SharedResponseBuffer,
    r: ResponseParts,
    i: int,
)
    requires
        call_ensures(build_response, (buffer,), r),
        headers::well_formed(buffer.headers@),
    ensures
        100 <= buffer.status <= 999 ==> r.status == buffer.status,
        buffer.status < 100 || buffer.status > 999 ==> r.status == 200,
        r.body@ == buffer.body@,
        0 <= i < buffer.headers@.len() && is_sendable_name(buffer.headers@[i].0) ==> header_pairs(
            r.headers@,
        ).filter(|p: (Seq<char>, Seq<u8>)| p.0 == text::lower_chars(buffer.headers@[i].0))
            == buffer.headers@[i].1.filter(|v: Seq<u8>| is_sendable_value(v)).map_values(
            |v: Seq<u8>| (text::lower_chars(buffer.headers@[i].0), v),
        ),
{
    if 0 <= i < buffer.headers@.len() && is_sendable_name(buffer.headers@[i].0) {
        lemma_every_header_is_sent(buffer.headers@, i);
    }
}

/// A request that is not served is answered by its status and its message, and one that could
/// not be handed to a script by an error of the server without a word.
pub proof fn lemma_refusals_are_answered(
    rejected: &RejectedRequest,
    r: ResponseParts,
    e: ResponseParts,
)
    requires
        call_ensures(reject_response, (rejected,), r),
        call_ensures(internal_error_response, (), e),
    ensures
        100 <= rejected.status <= 999 ==> r.status == rejected.status,
        rejected.status < 100 || rejected.status > 999 ==> r.status == 400,
        r.body@ == encode_utf8(rejected.message@),
        r.headers@.len() == 0,
        e.status == 500,
        e.headers@.len() == 0,
        e.body@.len() == 0,
{
}

} // verus!
