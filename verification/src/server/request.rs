//! From what the transport read of a request to the request that a script is served.
use vstd::prelude::*;
use vstd::utf8::*;

use crate::callbacks::servervars;
use crate::context::{BufferedBody, Request, RequestBody};
use crate::headers;
use crate::text;
use crate::text::{DIGIT_0, DIGIT_9, LOWER_A, LOWER_F, PERCENT, SLASH, UPPER_A, UPPER_F};

verus! {

/// The value of a hexadecimal digit.
pub open spec fn hex_value(byte: u8) -> Option<u8> {
    if DIGIT_0 <= byte <= DIGIT_9 {
        Some((byte - DIGIT_0) as u8)
    } else if LOWER_A <= byte <= LOWER_F {
        Some((byte - LOWER_A + 10) as u8)
    } else if UPPER_A <= byte <= UPPER_F {
        Some((byte - UPPER_A + 10) as u8)
    } else {
        None
    }
}

/// The value of a hexadecimal digit.
pub fn hex_digit(byte: u8) -> (r: Option<u8>)
    ensures
        r == hex_value(byte),
        r matches Some(v) ==> v < 16,
{
    if DIGIT_0 <= byte && byte <= DIGIT_9 {
        Some(byte - DIGIT_0)
    } else if LOWER_A <= byte && byte <= LOWER_F {
        Some(byte - LOWER_A + 10)
    } else if UPPER_A <= byte && byte <= UPPER_F {
        Some(byte - UPPER_A + 10)
    } else {
        None
    }
}

/// Whether an escape, a percent sign and two hexadecimal digits, stands at the front.
pub open spec fn starts_with_escape(s: Seq<u8>) -> bool {
    s.len() > 2 && s[0] == PERCENT && hex_value(s[1]) is Some && hex_value(s[2]) is Some
}

/// The bytes with every escape replaced by the byte it stands for, and every other byte
/// unchanged: a plus sign is one, and so is a percent sign that starts no escape.
pub open spec fn decoded(s: Seq<u8>) -> Seq<u8>
    decreases s.len(),
{
    if s.len() == 0 {
        seq![]
    } else if starts_with_escape(s) {
        seq![(hex_value(s[1])->0 * 16 + hex_value(s[2])->0) as u8] + decoded(s.skip(3))
    } else {
        seq![s[0]] + decoded(s.skip(1))
    }
}

/// What holds no percent sign is not changed by decoding.
pub proof fn lemma_decode_keeps_plain_text(s: Seq<u8>)
    requires
        !s.contains(PERCENT),
    ensures
        decoded(s) == s,
    decreases s.len(),
{
    if s.len() > 0 {
        assert(s.contains(s[0]));
        let rest = s.skip(1);
        assert forall|i: int| 0 <= i < rest.len() implies rest[i] != PERCENT by {
            assert(s.contains(s[i + 1]));
        }
        lemma_decode_keeps_plain_text(rest);
        assert(decoded(s) =~= s);
    }
}

/// Replaces every escape by the byte it stands for.
pub fn percent_decode(input: &[u8]) -> (out: Vec<u8>)
    ensures
        out@ == decoded(input@),
{
    let n: usize = input.len();
    let mut out: Vec<u8> = Vec::new();
    let mut i: usize = 0;
    assert(input@.skip(0) =~= input@);
    assert(out@ + decoded(input@) =~= decoded(input@));
    while i < n
        invariant
            n == input@.len(),
            i <= n,
            decoded(input@) == out@ + decoded(input@.skip(i as int)),
        decreases n - i,
    {
        let ghost rest = input@.skip(i as int);
        let ghost before = out@;
        let mut width: usize = 1;
        let mut byte: u8 = input[i];
        if byte == PERCENT && n - i > 2 {
            match (hex_digit(input[i + 1]), hex_digit(input[i + 2])) {
                (Some(high), Some(low)) => {
                    byte = high * 16 + low;
                    width = 3;
                },
                _ => {},
            }
        }
        assert(rest[0] == input@[i as int]);
        if width == 3 {
            assert(rest[1] == input@[i + 1] && rest[2] == input@[i + 2]);
            assert(starts_with_escape(rest));
        } else if n - i > 2 {
            assert(rest[1] == input@[i + 1] && rest[2] == input@[i + 2]);
        }
        out.push(byte);
        i = i + width;
        proof {
            assert(rest.skip(width as int) =~= input@.skip(i as int));
            assert(decoded(rest) == seq![byte] + decoded(rest.skip(width as int)));
            assert(before + (seq![byte] + decoded(input@.skip(i as int))) =~= out@ + decoded(
                input@.skip(i as int),
            ));
        }
    }
    assert(out@ + decoded(input@.skip(i as int)) =~= out@);
    out
}

/// The version of HTTP that a request names.
#[derive(Clone, Copy, Debug, PartialEq, Eq, Structural)]
pub enum HttpVersion {
    Http09,
    Http10,
    /// 1.1, and whatever else the transport accepts.
    Http11,
}

/// What the transport read of a request before its body.
#[derive(Debug)]
pub struct RequestHead {
    pub method: String,
    /// The path and the query as they were sent; none in a request for no path.
    pub path_and_query: Option<String>,
    /// The path as it was sent.
    pub path: String,
    /// The query as it was sent, without its question mark.
    pub query: Option<String>,
    pub version: HttpVersion,
    /// The headers with names in small letters, in the order in which the transport has them.
    pub headers: Vec<(String, Vec<u8>)>,
}

/// The names and values of headers.
pub open spec fn header_views(headers: Seq<(String, Vec<u8>)>) -> Seq<(Seq<char>, Seq<u8>)> {
    headers.map_values(|h: (String, Vec<u8>)| (h.0@, h.1@))
}

/// The headers, each name with its values.
pub open spec fn collected(list: Seq<(Seq<char>, Seq<u8>)>) -> Seq<(Seq<char>, Seq<Seq<u8>>)>
    decreases list.len(),
{
    if list.len() == 0 {
        seq![]
    } else {
        headers::inserted(
            collected(list.drop_last()),
            headers::canonical(list.last().0),
            list.last().1,
        )
    }
}

/// The first value of a name.
pub open spec fn first_of(list: Seq<(Seq<char>, Seq<u8>)>, name: Seq<char>) -> Option<Seq<u8>>
    decreases list.len(),
{
    if list.len() == 0 {
        None
    } else if list[0].0 == name {
        Some(list[0].1)
    } else {
        first_of(list.skip(1), name)
    }
}

/// Whether a byte is visible ASCII, a space or a tab.
pub open spec fn is_visible(byte: u8) -> bool {
    32 <= byte < 127 || byte == 9
}

/// `HeaderValue::to_str` reads the value of a header as a string if all of it is visible ASCII,
/// spaces and tabs. What is no value of a header at all is not read either.
#[verifier::external_body]
fn visible_text(value: &[u8]) -> (r: Option<String>)
    ensures
        match r {
            Some(s) => (forall|i: int| 0 <= i < value@.len() ==> is_visible(#[trigger] value@[i]))
                && encode_utf8(s@) == value@,
            None => exists|i: int| 0 <= i < value@.len() && !is_visible(#[trigger] value@[i]),
        },
{
    let value = hyper::header::HeaderValue::from_bytes(value).ok()?;
    value.to_str().ok().map(|text| text.to_owned())
}

/// Whether a string is the host that headers name: that of the first host header, or nothing
/// where there is none or it is not visible ASCII.
pub open spec fn is_host(list: Seq<(Seq<char>, Seq<u8>)>, host: Seq<char>) -> bool {
    match first_of(list, "host"@) {
        Some(value) => if forall|i: int| 0 <= i < value.len() ==> is_visible(#[trigger] value[i]) {
            encode_utf8(host) == value
        } else {
            host.len() == 0
        },
        None => host.len() == 0,
    }
}

/// The host that headers name.
fn named_host(list: &[(String, Vec<u8>)]) -> (r: String)
    ensures
        is_host(header_views(list@), r@),
{
    let ghost all = header_views(list@);
    let mut i: usize = 0;
    assert(all.skip(0) =~= all);
    while i < list.len()
        invariant
            i <= list@.len(),
            all == header_views(list@),
            first_of(all, "host"@) == first_of(all.skip(i as int), "host"@),
        decreases list@.len() - i,
    {
        assert(all.skip(i as int)[0] == all[i as int]);
        assert(all.skip(i as int).skip(1) =~= all.skip(i + 1));
        if text::same_str(list[i].0.as_str(), "host") {
            return match visible_text(list[i].1.as_slice()) {
                Some(host) => host,
                None => String::new(),
            };
        }
        i = i + 1;
    }
    String::new()
}

/// The target as a script sees it in `REQUEST_URI`.
pub open spec fn target_of(path_and_query: Option<String>) -> Seq<u8> {
    match path_and_query {
        Some(target) => encode_utf8(target@),
        None => seq![SLASH],
    }
}

/// The major and minor number of a version.
pub open spec fn version_numbers(version: HttpVersion) -> (u16, u16) {
    match version {
        HttpVersion::Http09 => (0, 9),
        HttpVersion::Http10 => (1, 0),
        HttpVersion::Http11 => (1, 1),
    }
}

/// The request that a script is served.
pub fn build_request(head: &RequestHead, body: Vec<u8>, remote_addr: &str) -> (r: Request)
    ensures
        r.method@ == head.method@,
        r.raw_target@ == target_of(head.path_and_query),
        r.path@ == decoded(encode_utf8(head.path@)),
        r.query@ == (match head.query {
            Some(query) => encode_utf8(query@),
            None => seq![],
        }),
        r.headers@ == collected(header_views(head.headers@)),
        r.content_length == body@.len() as i64,
        is_host(header_views(head.headers@), r.host@),
        r.remote_addr@ == remote_addr@,
        (r.proto_major, r.proto_minor) == version_numbers(head.version),
        r.scheme == crate::context::Scheme::Http,
        !r.cancelled,
        r.body.on_record(),
        r.body.remaining() == body@,
        r.body.reliable(),
{
    let raw_target = match &head.path_and_query {
        Some(target) => text::str_bytes(target.as_str()),
        None => {
            let mut root: Vec<u8> = Vec::new();
            root.push(SLASH);
            assert(root@ =~= seq![SLASH]);
            root
        },
    };
    let path = percent_decode(head.path.as_str().as_bytes());
    let query = match &head.query {
        Some(query) => text::str_bytes(query.as_str()),
        None => Vec::new(),
    };
    let host = named_host(head.headers.as_slice());
    let (major, minor): (u16, u16) = match head.version {
        HttpVersion::Http09 => (0, 9),
        HttpVersion::Http10 => (1, 0),
        HttpVersion::Http11 => (1, 1),
    };
    let mut request = Request::new(head.method.as_str(), path).with_raw_target(
        raw_target,
    ).with_query(query).with_content_length(body.len() as i64).with_host(
        host.as_str(),
    ).with_remote_addr(remote_addr).with_proto(major, minor);
    let ghost all = header_views(head.headers@);
    let mut i: usize = 0;
    let mut collection = headers::Headers::default();
    assert(collection@ =~= collected(all.take(0)));
    while i < head.headers.len()
        invariant
            i <= head.headers@.len(),
            all == header_views(head.headers@),
            collection@ == collected(all.take(i as int)),
        decreases head.headers@.len() - i,
    {
        assert(all.take(i + 1).drop_last() =~= all.take(i as int));
        assert(all.take(i + 1).last() == all[i as int]);
        collection.insert(
            head.headers[i].0.as_str(),
            text::to_vec(head.headers[i].1.as_slice()),
        );
        i = i + 1;
    }
    assert(all.take(i as int) =~= all);
    request.headers = collection;
    request.body = RequestBody::new(Box::new(BufferedBody::new(body)));
    request
}

/// Decoding inverts encoding: a percent sign and the two hexadecimal digits of a byte, in
/// capitals or small letters, become that byte, and what follows is decoded by itself.
pub proof fn lemma_decode_inverts_encode(b: u8, high: u8, low: u8, rest: Seq<u8>)
    requires
        0x30 <= high <= 0x39 && b / 16 == high - 0x30 || 0x41 <= high <= 0x46 && b / 16 == high
            - 0x41 + 10 || 0x61 <= high <= 0x66 && b / 16 == high - 0x61 + 10,
        0x30 <= low <= 0x39 && b % 16 == low - 0x30 || 0x41 <= low <= 0x46 && b % 16 == low - 0x41
            + 10 || 0x61 <= low <= 0x66 && b % 16 == low - 0x61 + 10,
    ensures
        decoded(seq![0x25u8, high, low] + rest) == seq![b] + decoded(rest),
{
    let s = seq![0x25u8, high, low] + rest;
    assert(s.skip(3) =~= rest);
    assert(s[0] == 0x25 && s[1] == high && s[2] == low);
}

/// Nothing but an escape is decoded: any other byte stays, and so does a percent sign that two
/// hexadecimal digits do not follow.
pub proof fn lemma_decode_keeps_the_rest(s: Seq<u8>)
    requires
        s.len() > 0,
        s[0] != 0x25 || s.len() < 3 || (exists|i: int|
            1 <= i <= 2 && !(0x30 <= #[trigger] s[i] <= 0x39) && !(0x41 <= s[i] <= 0x46) && !(0x61
                <= s[i] <= 0x66)),
    ensures
        decoded(s) == seq![s[0]] + decoded(s.skip(1)),
{
}

/// Headers are kept whole: each name has, in order, exactly the values that came under it,
/// however it was written.
pub proof fn lemma_headers_are_collected(list: Seq<(Seq<char>, Seq<u8>)>, name: Seq<char>)
    ensures
        ({
            let own = list.filter(
                |h: (Seq<char>, Seq<u8>)| headers::canonical(h.0) == headers::canonical(name),
            ).map_values(|h: (Seq<char>, Seq<u8>)| h.1);
            headers::values_of(collected(list), headers::canonical(name)) == if own.len() == 0 {
                None
            } else {
                Some(own)
            }
        }),
    decreases list.len(),
{
    let key = headers::canonical(name);
    let mine = |h: (Seq<char>, Seq<u8>)| headers::canonical(h.0) == key;
    let value = |h: (Seq<char>, Seq<u8>)| h.1;
    reveal(Seq::filter);
    if list.len() == 0 {
        assert(list.filter(mine).map_values(value).len() == 0);
    } else {
        let front = list.drop_last();
        let last = list.last();
        lemma_headers_are_collected(front, name);
        let own = front.filter(mine).map_values(value);
        if mine(last) {
            headers::lemma_insert_then_lookup(collected(front), key, last.1);
            assert(list.filter(mine) =~= front.filter(mine).push(last));
            assert(list.filter(mine).map_values(value) =~= own.push(last.1));
            assert(own.len() == 0 ==> own.push(last.1) =~= seq![last.1]);
        } else {
            headers::lemma_insert_keeps_others(
                collected(front),
                headers::canonical(last.0),
                last.1,
                key,
            );
            assert(list.filter(mine) =~= front.filter(mine));
        }
    }
}

/// The host is the value of the first header of that name, whole, where it can be read, and
/// nothing otherwise.
pub proof fn lemma_host_is_the_first_one(list: Seq<(Seq<char>, Seq<u8>)>, host: Seq<char>, i: int)
    requires
        is_host(list, host),
        forall|k: int| 0 <= k < i && k < list.len() ==> (#[trigger] list[k]).0 != seq![
            'h',
            'o',
            's',
            't',
        ],
    ensures
        i >= list.len() ==> host.len() == 0,
        0 <= i < list.len() && list[i].0 == seq!['h', 'o', 's', 't'] ==> {
            let value = list[i].1;
            if forall|k: int|
                0 <= k < value.len() ==> 0x20 <= #[trigger] value[k] <= 0x7e || value[k] == 0x09 {
                encode_utf8(host) == value
            } else {
                host.len() == 0
            }
        },
    decreases list.len(),
{
    reveal_strlit("host");
    assert("host"@ =~= seq!['h', 'o', 's', 't']);
    if 0 < i && list.len() > 0 {
        assert(list[0].0 != "host"@);
        assert forall|k: int| 0 <= k < i - 1 && k < list.skip(1).len() implies (
        #[trigger] list.skip(1)[k]).0 != seq!['h', 'o', 's', 't'] by {
            assert(list[k + 1].0 != seq!['h', 'o', 's', 't']);
        }
        lemma_host_is_the_first_one(list.skip(1), host, i - 1);
        if i < list.len() {
            assert(list.skip(1)[i - 1] == list[i]);
        }
    } else if i == 0 && list.len() > 0 && list[0].0 == seq!['h', 'o', 's', 't'] {
        let value = list[0].1;
        assert((forall|k: int| 0 <= k < value.len() ==> is_visible(#[trigger] value[k])) == (
        forall|k: int|
            0 <= k < value.len() ==> 0x20 <= #[trigger] value[k] <= 0x7e || value[k] == 0x09)) by {
            if forall|k: int| 0 <= k < value.len() ==> is_visible(#[trigger] value[k]) {
                assert forall|k: int| 0 <= k < value.len() implies 0x20 <= #[trigger] value[k]
                    <= 0x7e || value[k] == 0x09 by {
                    assert(is_visible(value[k]));
                }
            }
            if forall|k: int|
                0 <= k < value.len() ==> 0x20 <= #[trigger] value[k] <= 0x7e || value[k] == 0x09 {
                assert forall|k: int| 0 <= k < value.len() implies is_visible(
                    #[trigger] value[k],
                ) by {
                    assert(0x20 <= value[k] <= 0x7e || value[k] == 0x09);
                }
            }
        }
    }
}

/// The target is what was sent, and a request for no path is one for the root.
pub proof fn lemma_target_is_what_was_sent(target: Option<String>)
    ensures
        target matches Some(sent) ==> target_of(target) == encode_utf8(sent@),
        target is None ==> target_of(target) == seq![0x2fu8],
{
}

/// A script is told the version that the client named.
pub proof fn lemma_version_is_told(version: HttpVersion)
    ensures
        ({
            let (major, minor) = version_numbers(version);
            servervars::protocol_name(major as nat, minor as nat) == seq![
                0x48u8,
                0x54u8,
                0x54u8,
                0x50u8,
                0x2fu8,
            ] + match version {
                HttpVersion::Http09 => seq![0x30u8, 0x2eu8, 0x39u8],
                HttpVersion::Http10 => seq![0x31u8, 0x2eu8, 0x30u8],
                HttpVersion::Http11 => seq![0x31u8, 0x2eu8, 0x31u8],
            }
        }),
{
    let (major, minor) = version_numbers(version);
    let s = servervars::protocol_name(major as nat, minor as nat);
    servervars::lemma_protocol_reads_back(major as nat, minor as nat);
    reveal_strlit("HTTP/");
    assert(is_ascii_chars("HTTP/"@));
    is_ascii_chars_encode_utf8("HTTP/"@);
    assert(text::decimal(major as nat).len() == 1);
    assert(text::decimal(minor as nat).len() == 1);
    assert(s =~= s.take(5) + text::decimal(major as nat).push(0x2e) + text::decimal(minor as nat));
    assert(s =~= s.take(5) + (text::decimal(major as nat).push(0x2e) + text::decimal(
        minor as nat,
    )));
}

/// Whether bytes spell a byte at a place: a percent sign and the byte's two hexadecimal digits,
/// in capitals.
pub open spec fn spells(sent: Seq<u8>, at: int, byte: u8) -> bool {
    let high = sent[at + 1];
    let low = sent[at + 2];
    &&& sent[at] == 0x25
    &&& 0x30 <= high <= 0x39 && byte / 16 == high - 0x30 || 0x41 <= high <= 0x46 && byte / 16
        == high - 0x41 + 10
    &&& 0x30 <= low <= 0x39 && byte % 16 == low - 0x30 || 0x41 <= low <= 0x46 && byte % 16 == low
        - 0x41 + 10
}

/// Any path can be sent: written with an escape for each byte, in capitals, it is decoded to just
/// these bytes.
pub proof fn lemma_any_path_can_be_sent(path: Seq<u8>, sent: &[u8], out: Vec<u8>)
    requires
        sent@.len() == 3 * path.len(),
        forall|i: int| 0 <= i < path.len() ==> spells(sent@, 3 * i, #[trigger] path[i]),
        call_ensures(percent_decode, (sent,), out),
    ensures
        out@ == path,
{
    lemma_escapes_are_decoded(path, sent@);
}

proof fn lemma_escapes_are_decoded(path: Seq<u8>, sent: Seq<u8>)
    requires
        sent.len() == 3 * path.len(),
        forall|i: int| 0 <= i < path.len() ==> spells(sent, 3 * i, #[trigger] path[i]),
    ensures
        decoded(sent) == path,
    decreases path.len(),
{
    if path.len() > 0 {
        let rest = sent.skip(3);
        assert(spells(sent, 3 * 0int, path[0]));
        assert(sent =~= seq![0x25u8, sent[1], sent[2]] + rest);
        lemma_decode_inverts_encode(path[0], sent[1], sent[2], rest);
        assert forall|i: int| 0 <= i < path.skip(1).len() implies spells(
            rest,
            3 * i,
            #[trigger] path.skip(1)[i],
        ) by {
            assert(spells(sent, 3 * (i + 1), path[i + 1]));
        }
        lemma_escapes_are_decoded(path.skip(1), rest);
        assert(seq![path[0]] + path.skip(1) =~= path);
    } else {
        assert(decoded(sent) =~= path);
    }
}

/// A request is handed on as it came: its method and its query as they were sent, its path
/// decoded, its body and the body's length, the peer, the version, and under each name all of
/// the values that came under it.
pub proof fn lemma_request_is_what_was_sent(
    head: &RequestHead,
    body: Vec<u8>,
    remote_addr: &str,
    r: Request,
    name: Seq<char>,
)
    requires
        call_ensures(build_request, (head, body, remote_addr), r),
        body@.len() <= i64::MAX,
    ensures
        r.method@ == head.method@,
        r.path@ == decoded(encode_utf8(head.path@)),
        head.path_and_query matches Some(target) ==> r.raw_target@ == encode_utf8(target@),
        head.path_and_query is None ==> r.raw_target@ == seq![0x2fu8],
        head.query matches Some(query) ==> r.query@ == encode_utf8(query@),
        head.query is None ==> r.query@.len() == 0,
        r.content_length == body@.len(),
        r.body.remaining() == body@,
        r.remote_addr@ == remote_addr@,
        is_host(header_views(head.headers@), r.host@),
        head.version == HttpVersion::Http09 ==> r.proto_major == 0 && r.proto_minor == 9,
        head.version == HttpVersion::Http10 ==> r.proto_major == 1 && r.proto_minor == 0,
        head.version == HttpVersion::Http11 ==> r.proto_major == 1 && r.proto_minor == 1,
        r.scheme == crate::context::Scheme::Http,
        !r.cancelled,
        ({
            let own = header_views(head.headers@).filter(
                |h: (Seq<char>, Seq<u8>)| headers::canonical(h.0) == headers::canonical(name),
            ).map_values(|h: (Seq<char>, Seq<u8>)| h.1);
            headers::values_of(r.headers@, headers::canonical(name)) == if own.len() == 0 {
                None
            } else {
                Some(own)
            }
        }),
{
    lemma_headers_are_collected(header_views(head.headers@), name);
}

} // verus!
