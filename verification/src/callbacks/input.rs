//! What a script reads of its request: the body, the cookies and the headers.
//!
//! A thread without a context, or a context without a sink, is not serving an HTTP request:
//! there is nothing to read.
use vstd::prelude::*;
use vstd::utf8::*;

use crate::callbacks::log;
use crate::callbacks::log::{Level, Record};
use crate::cgi;
use crate::context::{ContextSlots, Request, RequestArena, RequestContext};
use crate::headers;
use crate::headers::Headers;
use crate::text;

verus! {

/// Whether a context changed by a read of its request's body alone, which gave `came` of at most
/// `count` bytes. Fewer come only at the end of the body or where its source fails.
pub open spec fn body_read(
    old_ctx: RequestContext,
    new_ctx: RequestContext,
    count: nat,
    came: Seq<u8>,
) -> bool {
    &&& old_ctx.request matches Some(before)
    &&& new_ctx.request matches Some(after)
    &&& new_ctx == (RequestContext { request: new_ctx.request, ..old_ctx })
    &&& after == (Request { body: after.body, ..before })
    &&& came.len() <= count
    &&& before.body.on_record() ==> {
        &&& after.body.on_record()
        &&& before.body.remaining() == came + after.body.remaining()
        &&& before.body.reliable() ==> after.body.reliable() && (came.len() == count
            || after.body.remaining().len() == 0)
    }
}

/// Reads up to `count` bytes of the body of a thread's request.
pub fn go_read_post(slots: &mut ContextSlots, thread_index: usize, count: usize) -> (r: Vec<u8>)
    ensures
        forall|i: int| i != thread_index ==> #[trigger] final(slots).at(i) == old(slots).at(i),
        match old(slots).at(thread_index as int) {
            Some(ctx) => if count > 0 && ctx.response_sink is Some && ctx.request is Some {
                final(slots).at(thread_index as int) matches Some(after) && body_read(
                    ctx,
                    after,
                    count as nat,
                    r@,
                )
            } else {
                r@.len() == 0 && final(slots).at(thread_index as int) == Some(ctx)
            },
            None => r@.len() == 0 && final(slots).at(thread_index as int) is None,
        },
{
    if count == 0 {
        return Vec::new();
    }
    match slots.context_mut(thread_index) {
        None => Vec::new(),
        Some(ctx) => {
            if ctx.response_sink.is_none() {
                return Vec::new();
            }
            match &mut ctx.request {
                None => Vec::new(),
                Some(request) => request.body.fill(count),
            }
        },
    }
}

/// The bytes but for the NULs among them.
pub open spec fn without_nuls(s: Seq<u8>) -> Seq<u8>
    decreases s.len(),
{
    if s.len() == 0 {
        seq![]
    } else if s.last() == 0 {
        without_nuls(s.drop_last())
    } else {
        without_nuls(s.drop_last()).push(s.last())
    }
}

fn strip_nuls(s: &[u8]) -> (r: Vec<u8>)
    ensures
        r@ == without_nuls(s@),
{
    let mut r: Vec<u8> = Vec::new();
    let mut i: usize = 0;
    while i < s.len()
        invariant
            i <= s@.len(),
            r@ == without_nuls(s@.take(i as int)),
        decreases s@.len() - i,
    {
        assert(s@.take(i + 1).drop_last() =~= s@.take(i as int));
        if s[i] != 0 {
            r.push(s[i]);
        }
        i = i + 1;
    }
    assert(s@.take(i as int) =~= s@);
    r
}

/// What a C string can hold never holds a NUL: a text without its NULs is read back whole.
pub proof fn lemma_without_nuls(s: Seq<u8>)
    ensures
        !without_nuls(s).contains(0u8),
        !s.contains(0u8) ==> without_nuls(s) == s,
    decreases s.len(),
{
    if s.len() > 0 {
        let rest = s.drop_last();
        lemma_without_nuls(rest);
        if !s.contains(0u8) {
            assert forall|i: int| 0 <= i < rest.len() implies rest[i] != 0 by {
                assert(s.contains(s[i]));
            }
            assert(s.contains(s.last()));
            assert(without_nuls(s) =~= s);
        }
    }
}

/// Every value of the cookie headers, with a semicolon and a space between.
pub open spec fn cookies_of(h: Seq<(Seq<char>, Seq<Seq<u8>>)>) -> Seq<u8> {
    match headers::values_of(h, headers::canonical("Cookie"@)) {
        Some(values) => text::joined_with(values, encode_utf8("; "@)),
        None => seq![],
    }
}

/// The cookies of a thread's request without the NULs among them. There are none where the
/// headers hold none or only an empty one; a header that holds nothing but NULs is an empty
/// text, not none.
pub fn go_read_cookies(slots: &ContextSlots, thread_index: usize) -> (r: Option<Vec<u8>>)
    ensures
        match slots.at(thread_index as int) {
            Some(ctx) => match ctx.request {
                Some(request) => match r {
                    Some(cookies) => cookies_of(request.headers@).len() > 0 && cookies@
                        == without_nuls(cookies_of(request.headers@)),
                    None => cookies_of(request.headers@).len() == 0,
                },
                None => r is None,
            },
            None => r is None,
        },
{
    let request = match slots.context(thread_index) {
        None => return None,
        Some(ctx) => match &ctx.request {
            None => return None,
            Some(request) => request,
        },
    };
    let joined = match request.headers.get_all("Cookie") {
        None => return None,
        Some(values) => text::join_values(values, "; ".as_bytes()),
    };
    if joined.len() == 0 {
        return None;
    }
    Some(strip_nuls(joined.as_slice()))
}

/// A request header as a script gets it: the numbers under which the request keeps its name and
/// its value.
#[derive(Debug, Clone, Copy, PartialEq, Eq, Structural)]
pub struct HeaderEntry {
    pub name: usize,
    pub value: usize,
}

/// What is kept for the headers: for each name in turn the name, then its values with a comma
/// and a space between, both with a NUL behind.
pub open spec fn kept_headers(h: Seq<(Seq<char>, Seq<Seq<u8>>)>) -> Seq<Seq<u8>>
    decreases h.len(),
{
    if h.len() == 0 {
        seq![]
    } else {
        let (name, values) = h.last();
        kept_headers(h.drop_last()).push(encode_utf8(name).push(0)).push(
            text::joined_with(values, cgi::comma_space()).push(0),
        )
    }
}

proof fn lemma_kept_headers_len(h: Seq<(Seq<char>, Seq<Seq<u8>>)>)
    ensures
        kept_headers(h).len() == 2 * h.len(),
    decreases h.len(),
{
    if h.len() > 0 {
        lemma_kept_headers_len(h.drop_last());
    }
}

/// Whether the entries name, in order, strings kept two by two from number `start` on.
pub open spec fn entries_from(entries: Seq<HeaderEntry>, start: int) -> bool {
    forall|i: int|
        0 <= i < entries.len() ==> (#[trigger] entries[i]).name == start + 2 * i && entries[i].value
            == start + 2 * i + 1
}

/// Keeps the headers in the arena.
fn keep_headers(arena: &mut RequestArena, request_headers: &Headers) -> (entries: Vec<HeaderEntry>)
    ensures
        entries@.len() == request_headers@.len(),
        entries_from(entries@, old(arena)@.len() as int),
        final(arena)@ == old(arena)@ + kept_headers(request_headers@),
{
    let ghost h = request_headers@;
    let ghost kept = arena@;
    let n: usize = request_headers.name_count();
    let mut entries: Vec<HeaderEntry> = Vec::new();
    let mut i: usize = 0;
    assert(arena@ =~= kept + kept_headers(h.take(0)));
    while i < n
        invariant
            i <= n,
            n == h.len(),
            h == request_headers@,
            entries@.len() == i,
            entries_from(entries@, kept.len() as int),
            arena@ == kept + kept_headers(h.take(i as int)),
        decreases n - i,
    {
        proof {
            assert(h.take(i + 1).drop_last() =~= h.take(i as int));
            assert(h.take(i + 1).last() == h[i as int]);
            lemma_kept_headers_len(h.take(i as int));
        }
        let value = cgi::join_header_values(request_headers.values_at(i));
        let name: usize = arena.allocate(request_headers.name_at(i).as_bytes());
        let value: usize = arena.allocate(value.as_slice());
        entries.push(HeaderEntry { name, value });
        assert(arena@ =~= kept + kept_headers(h.take(i + 1)));
        i = i + 1;
    }
    assert(h.take(i as int) =~= h);
    entries
}

/// The headers of a thread's request, one entry for each name, in the order in which the names
/// first came. The request keeps the strings. Outside an HTTP request there are none, which is
/// worth a record below the level that is kept.
pub fn go_apache_request_headers(
    slots: &mut ContextSlots,
    thread_index: usize,
    records: &mut Vec<Record>,
) -> (r: Option<Vec<HeaderEntry>>)
    ensures
        forall|i: int| i != thread_index ==> #[trigger] final(slots).at(i) == old(slots).at(i),
        match old(slots).at(thread_index as int) {
            Some(ctx) => if ctx.response_sink is Some && ctx.request is Some {
                let h = ctx.request->0.headers@;
                &&& r matches Some(entries) && entries@.len() == h.len() && entries_from(
                    entries@,
                    ctx.arena@.len() as int,
                )
                &&& final(slots).at(thread_index as int) matches Some(after) && after == (
                RequestContext { arena: after.arena, ..ctx }) && after.arena@ == ctx.arena@
                    + kept_headers(h)
            } else {
                r is None && final(slots).at(thread_index as int) == Some(ctx)
            },
            None => r is None && final(slots).at(thread_index as int) is None,
        },
        log::record_views(final(records)@) == log::record_views(old(records)@),
{
    match slots.context_mut(thread_index) {
        None => {
            log_outside_request(records);
            None
        },
        Some(ctx) => {
            if ctx.response_sink.is_none() {
                log_outside_request(records);
                return None;
            }
            let request = match &ctx.request {
                None => {
                    log_outside_request(records);
                    return None;
                },
                Some(request) => request,
            };
            let entries = keep_headers(&mut ctx.arena, &request.headers);
            Some(entries)
        },
    }
}

fn log_outside_request(records: &mut Vec<Record>)
    ensures
        log::record_views(final(records)@) == log::record_views(old(records)@),
{
    log::log_message(
        records,
        Level::debug(),
        "apache_request_headers() called in non-HTTP context".as_bytes(),
    );
}

/// Only the NULs are taken out of a text: what is left is every other byte, in order.
pub proof fn lemma_nothing_but_nuls_is_lost(s: Seq<u8>)
    ensures
        without_nuls(s) == s.filter(|b: u8| b != 0),
    decreases s.len(),
{
    let kept = |b: u8| b != 0;
    reveal(Seq::filter);
    if s.len() > 0 {
        lemma_nothing_but_nuls_is_lost(s.drop_last());
        if s.last() != 0 {
            assert(s.filter(kept) =~= s.drop_last().filter(kept).push(s.last()));
        } else {
            assert(s.filter(kept) =~= s.drop_last().filter(kept));
        }
    } else {
        assert(s.filter(kept) =~= seq![]);
    }
}

/// The cookies are all that came: one more cookie header stands behind those before it, with a
/// semicolon and a space between, and no other header has a part in it.
pub proof fn lemma_cookies_are_joined(
    h: Seq<(Seq<char>, Seq<Seq<u8>>)>,
    value: Seq<u8>,
    other: Seq<char>,
)
    requires
        headers::well_formed(h),
        other != headers::canonical("Cookie"@),
    ensures
        ({
            let key = headers::canonical("Cookie"@);
            let more = headers::inserted(h, key, value);
            &&& headers::values_of(h, key) is None ==> cookies_of(h).len() == 0 && cookies_of(more)
                == value
            &&& headers::values_of(h, key) is Some ==> cookies_of(more) == cookies_of(h) + seq![
                0x3bu8,
                0x20u8,
            ] + value
            &&& cookies_of(headers::inserted(h, other, value)) == cookies_of(h)
        }),
{
    let key = headers::canonical("Cookie"@);
    reveal_strlit("; ");
    assert(is_ascii_chars("; "@));
    is_ascii_chars_encode_utf8("; "@);
    let sep = encode_utf8("; "@);
    assert(sep =~= seq![0x3bu8, 0x20u8]);
    headers::lemma_insert_then_lookup(h, key, value);
    headers::lemma_insert_keeps_others(h, other, value, key);
    if let Some(values) = headers::values_of(h, key) {
        headers::lemma_first_value_stays(h, "Cookie"@, "Cookie"@, value);
        headers::lemma_name_has_values(h, key);
        text::lemma_joined_in_order(values, seq![value], sep);
        text::lemma_joined_in_order(seq![value], seq![], sep);
        assert(values + seq![value] =~= values.push(value));
    } else {
        text::lemma_joined_in_order(seq![value], seq![], sep);
    }
}

/// A script reads every header: under the numbers of an entry stand the header's name and all of
/// its values, a comma and a space between, each with a NUL behind.
pub proof fn lemma_headers_read_back(h: Seq<(Seq<char>, Seq<Seq<u8>>)>, i: int)
    requires
        0 <= i < h.len(),
    ensures
        kept_headers(h).len() == 2 * h.len(),
        kept_headers(h)[2 * i] == encode_utf8(h[i].0) + seq![0u8],
        kept_headers(h)[2 * i + 1] == text::joined_with(h[i].1, seq![0x2cu8, 0x20u8]) + seq![0u8],
    decreases h.len(),
{
    let front = h.drop_last();
    lemma_kept_headers_len(front);
    assert(cgi::comma_space() =~= seq![0x2cu8, 0x20u8]);
    if i < front.len() {
        lemma_headers_read_back(front, i);
        assert(front[i] == h[i]);
    } else {
        assert(h[i] == h.last());
        assert(kept_headers(h)[2 * i] =~= encode_utf8(h[i].0) + seq![0u8]);
        assert(kept_headers(h)[2 * i + 1] =~= text::joined_with(h[i].1, seq![0x2cu8, 0x20u8])
            + seq![0u8]);
    }
}

/// A body is read once and in order: what two reads give, and what is then left, is what there
/// was, and a read that gives less than it could has reached the end of the body.
pub proof fn lemma_reads_follow_each_other(
    before: RequestContext,
    between: RequestContext,
    after: RequestContext,
    m: nat,
    n: nat,
    first: Seq<u8>,
    second: Seq<u8>,
)
    requires
        body_read(before, between, m, first),
        body_read(between, after, n, second),
        before.request->0.body.on_record(),
    ensures
        before.request->0.body.remaining() == first + second + after.request->0.body.remaining(),
        first.len() <= m,
        second.len() <= n,
        before.request->0.body.reliable() && first.len() < m ==> second.len() == 0
            && before.request->0.body.remaining() == first,
        after.request->0.path == before.request->0.path,
        after.request->0.headers == before.request->0.headers,
        after.is_done == before.is_done,
{
    let rest = after.request->0.body.remaining();
    assert(first + (second + rest) =~= first + second + rest);
    if before.request->0.body.reliable() && first.len() < m {
        assert(between.request->0.body.remaining().len() == 0);
        assert((second + rest).len() == 0);
        assert(before.request->0.body.remaining() =~= first);
    }
}

/// Each entry leads to its header: under its two numbers the arena keeps the header's name and
/// its values.
pub proof fn lemma_entries_lead_to_their_headers(
    arena: Seq<Seq<u8>>,
    h: Seq<(Seq<char>, Seq<Seq<u8>>)>,
    entries: Seq<HeaderEntry>,
    i: int,
)
    requires
        entries.len() == h.len(),
        entries_from(entries, arena.len() as int),
        0 <= i < h.len(),
    ensures
        ({
            let after = arena + kept_headers(h);
            &&& entries[i].name < after.len() && entries[i].value < after.len()
            &&& after[entries[i].name as int] == encode_utf8(h[i].0) + seq![0u8]
            &&& after[entries[i].value as int] == text::joined_with(h[i].1, seq![0x2cu8, 0x20u8])
                + seq![0u8]
        }),
{
    lemma_headers_read_back(h, i);
    assert(entries[i].name == arena.len() + 2 * i);
}

/// A script reads its own request's body, no more than it asks for and from where the last read
/// ended, and nobody else's request is touched.
pub proof fn lemma_script_reads_its_body(
    slots: &mut ContextSlots,
    thread_index: usize,
    count: usize,
    r: Vec<u8>,
    other: int,
)
    requires
        call_ensures(go_read_post, (slots, thread_index, count), r),
        other != thread_index,
    ensures
        final(slots).at(other) == old(slots).at(other),
        r@.len() <= count,
        old(slots).at(thread_index as int) is None ==> r@.len() == 0,
        old(slots).at(thread_index as int) matches Some(ctx) && count > 0 && ctx.response_sink is Some
            && ctx.request is Some && ctx.request->0.body.on_record() ==> {
            let before = old(slots).at(thread_index as int)->0.request->0.body;
            let after = final(slots).at(thread_index as int)->0.request->0.body;
            &&& before.remaining() == r@ + after.remaining()
            &&& before.reliable() ==> r@.len() == count || after.remaining().len() == 0
        },
        old(slots).at(thread_index as int) matches Some(ctx) && ctx.response_sink is None ==> r@.len()
            == 0,
{
}

/// A script reads the cookies of its own request: all of them, joined, but for NULs.
pub proof fn lemma_script_reads_its_cookies(
    slots: &ContextSlots,
    thread_index: usize,
    r: Option<Vec<u8>>,
)
    requires
        call_ensures(go_read_cookies, (slots, thread_index), r),
    ensures
        slots.at(thread_index as int) is None ==> r is None,
        slots.at(thread_index as int) matches Some(ctx) && ctx.request is Some ==> {
            let cookies = cookies_of(slots.at(thread_index as int)->0.request->0.headers@);
            &&& r is None <==> cookies.len() == 0
            &&& r matches Some(text) ==> text@ == cookies.filter(|b: u8| b != 0)
        },
{
    if let Some(ctx) = slots.at(thread_index as int) {
        if let Some(request) = ctx.request {
            lemma_nothing_but_nuls_is_lost(cookies_of(request.headers@));
        }
    }
}

/// A script gets every header of its own request: one entry each, in order, which leads to the
/// name and to all of its values.
pub proof fn lemma_script_reads_its_headers(
    slots: &mut ContextSlots,
    thread_index: usize,
    records: &mut Vec<Record>,
    r: Option<Vec<HeaderEntry>>,
    i: int,
    other: int,
)
    requires
        call_ensures(go_apache_request_headers, (slots, thread_index, records), r),
        other != thread_index,
    ensures
        final(slots).at(other) == old(slots).at(other),
        old(slots).at(thread_index as int) matches Some(ctx) && ctx.response_sink is Some
            && ctx.request is Some ==> {
            let h = old(slots).at(thread_index as int)->0.request->0.headers@;
            let arena = final(slots).at(thread_index as int)->0.arena@;
            &&& r is Some
            &&& r->0@.len() == h.len()
            &&& 0 <= i < h.len() ==> arena[r->0@[i].name as int] == encode_utf8(h[i].0) + seq![0u8]
                && arena[r->0@[i].value as int] == text::joined_with(
                h[i].1,
                seq![0x2cu8, 0x20u8],
            ) + seq![0u8]
        },
        old(slots).at(thread_index as int) is None ==> r is None,
{
    if let Some(ctx) = old(slots).at(thread_index as int) {
        if ctx.response_sink is Some && ctx.request is Some {
            let h = ctx.request->0.headers@;
            if 0 <= i < h.len() {
                lemma_entries_lead_to_their_headers(ctx.arena@, h, r->0@, i);
            }
        }
    }
}

} // verus!
