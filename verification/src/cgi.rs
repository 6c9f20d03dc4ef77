//! CGI path splitting, addresses, and the `$_SERVER` names of request headers.
//!
//! Request paths are bytes: the functions whose name ends in `_bytes` serve them, and each has
//! a form on strings beside it.
use vstd::prelude::*;
use vstd::utf8::*;

use crate::path;
use crate::text;
use crate::text::{CLOSE_BRACKET, COLON, COMMA, HYPHEN, OPEN_BRACKET, SLASH, SPACE, UNDERSCORE};

verus! {

/// The path with a slash put in front, unless it is empty or has one.
pub open spec fn with_leading_slash(p: Seq<u8>) -> Seq<u8> {
    if p.len() == 0 || p[0] == SLASH {
        p
    } else {
        seq![SLASH] + p
    }
}

pub fn ensure_leading_slash_bytes(path: &[u8]) -> (r: Vec<u8>)
    ensures
        r@ == with_leading_slash(path@),
{
    let mut r: Vec<u8> = Vec::new();
    if path.len() > 0 && path[0] != SLASH {
        r.push(SLASH);
    }
    text::append(&mut r, path);
    assert(r@ =~= with_leading_slash(path@));
    r
}

/// [`ensure_leading_slash_bytes`] on a string.
pub fn ensure_leading_slash(path: &str) -> (r: String)
    ensures
        encode_utf8(r@) == with_leading_slash(encode_utf8(path@)),
{
    proof {
        lemma_leading_slash_valid(path@);
    }
    text::to_string(ensure_leading_slash_bytes(path.as_bytes()))
}

proof fn lemma_leading_slash_valid(s: Seq<char>)
    ensures
        valid_utf8(with_leading_slash(encode_utf8(s))),
{
    encode_utf8_valid_utf8(s);
    text::lemma_ascii_valid(seq![SLASH]);
    valid_utf8_concat(seq![SLASH], encode_utf8(s));
}

/// A split path with an entry that is not ASCII.
#[derive(Debug, Clone, Copy, PartialEq, Eq, Structural)]
pub struct InvalidSplitPath;

impl InvalidSplitPath {
    /// The error in words.
    pub fn message(&self) -> (r: String)
        ensures
            r@ == "split path contains non-ASCII characters"@,
    {
        "split path contains non-ASCII characters".to_owned()
    }
}

/// Whether every entry is ASCII.
pub open spec fn all_ascii(split_path: Seq<Seq<char>>) -> bool {
    forall|i: int| 0 <= i < split_path.len() ==> is_ascii_chars(#[trigger] split_path[i])
}

/// The entries with ASCII capitals made small.
pub open spec fn lowered(split_path: Seq<Seq<char>>) -> Seq<Seq<char>> {
    split_path.map_values(|s: Seq<char>| text::lower_chars(s))
}

/// Makes the entries of a configured split path small, and refuses one that is not ASCII.
/// [`split_pos`] folds only the path it searches, so an entry has to be in this form to match
/// without regard to case.
pub fn normalize_split_path(split_path: Vec<String>) -> (r: Result<Vec<String>, InvalidSplitPath>)
    ensures
        r is Ok <==> all_ascii(text::strings(split_path@)),
        r matches Ok(v) ==> text::strings(v@) == lowered(text::strings(split_path@)),
{
    let mut out: Vec<String> = Vec::new();
    let mut i: usize = 0;
    let ghost all = text::strings(split_path@);
    while i < split_path.len()
        invariant
            i <= split_path@.len(),
            all == text::strings(split_path@),
            forall|k: int| 0 <= k < i ==> is_ascii_chars(#[trigger] all[k]),
            text::strings(out@) == lowered(all).take(i as int),
        decreases split_path@.len() - i,
    {
        assert(all[i as int] == split_path@[i as int]@);
        if !split_path[i].as_str().is_ascii() {
            return Err(InvalidSplitPath);
        }
        let ghost before = out@;
        out.push(text::lowercase(split_path[i].as_str()));
        proof {
            assert(lowered(all)[i as int] == text::lower_chars(all[i as int]));
            assert(text::strings(out@) =~= text::strings(before).push(out@.last()@));
            assert(text::strings(out@) =~= lowered(all).take(i + 1));
        }
        i = i + 1;
    }
    assert(lowered(all).take(i as int) =~= lowered(all));
    Ok(out)
}

/// Whether a byte of a path matches a byte of an entry: an ASCII capital of the path is read as
/// its small letter, and a byte of the path that is not ASCII matches nothing.
pub open spec fn byte_matches(c: u8, s: u8) -> bool {
    c < 0x80 && text::lower(c) == s
}

/// Whether `split` stands at `i` in `path`.
pub open spec fn matches_at(path: Seq<u8>, split: Seq<u8>, i: int) -> bool {
    &&& 0 <= i
    &&& i + split.len() <= path.len()
    &&& forall|j: int|
        0 <= j < split.len() ==> byte_matches(path[i + j], #[trigger] split[j])
}

/// The first position at or after `from` where `split` stands in `path`.
pub open spec fn first_match(path: Seq<u8>, split: Seq<u8>, from: int) -> Option<int>
    decreases path.len() - from,
{
    if from < 0 || from + split.len() > path.len() {
        None
    } else if matches_at(path, split, from) {
        Some(from)
    } else {
        first_match(path, split, from + 1)
    }
}

/// The end of the first match of the first entry that matches. An empty entry matches nothing.
pub open spec fn first_split(path: Seq<u8>, splits: Seq<Seq<u8>>) -> Option<int>
    decreases splits.len(),
{
    if splits.len() == 0 {
        None
    } else if splits[0].len() > 0 && first_match(path, splits[0], 0) is Some {
        Some(first_match(path, splits[0], 0)->0 + splits[0].len())
    } else {
        first_split(path, splits.skip(1))
    }
}

/// Where the script part of a path ends: at the path's start for an empty split path.
pub open spec fn split_point(path: Seq<u8>, splits: Seq<Seq<u8>>) -> Option<int> {
    if splits.len() == 0 {
        Some(0)
    } else {
        first_split(path, splits)
    }
}

fn stands_at(path: &[u8], split: &[u8], i: usize) -> (r: bool)
    requires
        i + split@.len() <= path@.len(),
    ensures
        r == matches_at(path@, split@, i as int),
{
    let n: usize = path.len();
    let mut j: usize = 0;
    while j < split.len()
        invariant
            n == path@.len(),
            i + split@.len() <= n,
            j <= split@.len(),
            forall|k: int|
                0 <= k < j ==> byte_matches(path@[i + k], #[trigger] split@[k]),
        decreases split@.len() - j,
    {
        let c = path[i + j];
        if c >= 0x80 || text::to_lower(c) != split[j] {
            assert(!byte_matches(path@[i + j], split@[j as int]));
            return false;
        }
        j = j + 1;
    }
    true
}

fn search(path: &[u8], split: &[u8]) -> (r: Option<usize>)
    ensures
        match r {
            Some(i) => first_match(path@, split@, 0) == Some(i as int) && i + split@.len()
                <= path@.len(),
            None => first_match(path@, split@, 0) is None,
        },
{
    if split.len() > path.len() {
        return None;
    }
    let last: usize = path.len() - split.len();
    let mut i: usize = 0;
    while i <= last
        invariant
            i <= last + 1,
            last + split@.len() == path@.len(),
            first_match(path@, split@, 0) == first_match(path@, split@, i as int),
        decreases last + 1 - i,
    {
        if stands_at(path, split, i) {
            return Some(i);
        }
        if i == last {
            assert(first_match(path@, split@, i + 1) is None);
            return None;
        }
        i = i + 1;
    }
    None
}

/// Where the script part of `path` ends, or nothing where no entry of the split path matches.
pub fn split_point_bytes(path: &[u8], split_path: &[String]) -> (r: Option<usize>)
    ensures
        match r {
            Some(p) => split_point(path@, text::string_bytes(split_path@)) == Some(p as int) && p
                <= path@.len(),
            None => split_point(path@, text::string_bytes(split_path@)) is None,
        },
{
    if split_path.len() == 0 {
        return Some(0);
    }
    let ghost splits = text::string_bytes(split_path@);
    let n: usize = path.len();
    let mut k: usize = 0;
    proof {
        assert(splits.skip(0) =~= splits);
    }
    while k < split_path.len()
        invariant
            n == path@.len(),
            k <= split_path@.len(),
            split_path@.len() > 0,
            splits == text::string_bytes(split_path@),
            first_split(path@, splits) == first_split(path@, splits.skip(k as int)),
        decreases split_path@.len() - k,
    {
        let split = split_path[k].as_str().as_bytes();
        proof {
            assert(splits.skip(k as int)[0] == split@);
            assert(splits.skip(k as int).skip(1) =~= splits.skip(k + 1));
        }
        if split.len() > 0 {
            if let Some(i) = search(path, split) {
                return Some(i + split.len());
            }
        }
        k = k + 1;
    }
    None
}

/// Where the script part of `path` ends, or -1 where no entry of the split path matches. The
/// search ignores ASCII case in the path and takes the entries as they are.
pub fn split_pos(path: &str, split_path: &[String]) -> (r: isize)
    requires
        encode_utf8(path@).len() <= isize::MAX,
    ensures
        r == match split_point(encode_utf8(path@), text::string_bytes(split_path@)) {
            Some(p) => p,
            None => -1,
        },
{
    match split_point_bytes(path.as_bytes(), split_path) {
        Some(p) => p as isize,
        None => -1,
    }
}

/// The host and the port of `host:port` or `[host]:port`. There is none without a port, with a
/// colon in an unbracketed host, or with brackets elsewhere.
pub open spec fn host_port(s: Seq<u8>) -> Option<(Seq<u8>, Seq<u8>)> {
    match text::last_index(s, COLON) {
        None => None,
        Some(i) => if s[0] == OPEN_BRACKET {
            match text::first_index(s, CLOSE_BRACKET) {
                None => None,
                Some(end) => if end + 1 == i && !s.skip(1).contains(OPEN_BRACKET) && !s.skip(
                    end + 1,
                ).contains(CLOSE_BRACKET) {
                    Some((s.subrange(1, end), s.skip(i + 1)))
                } else {
                    None
                },
            }
        } else if s.take(i).contains(COLON) || s.contains(OPEN_BRACKET) || s.contains(
            CLOSE_BRACKET,
        ) {
            None
        } else {
            Some((s.take(i), s.skip(i + 1)))
        },
    }
}

/// The bytes between the brackets of `[..]`, and the bytes themselves without both brackets.
pub open spec fn without_brackets(s: Seq<u8>) -> Seq<u8> {
    if s.len() >= 2 && s[0] == OPEN_BRACKET && s.last() == CLOSE_BRACKET {
        s.subrange(1, s.len() - 1)
    } else {
        s
    }
}

/// The address and the port of a peer. What is no `host:port` is cut at its last colon, or has
/// no port, and surrounding brackets are dropped.
pub open spec fn remote_parts(s: Seq<u8>) -> (Seq<u8>, Seq<u8>) {
    match host_port(s) {
        Some(parts) => parts,
        None => match text::last_index(s, COLON) {
            Some(i) => (without_brackets(s.take(i)), s.skip(i + 1)),
            None => (without_brackets(s), seq![]),
        },
    }
}

/// Splits `host:port` or `[host]:port`.
pub fn split_host_port_bytes(hostport: &[u8]) -> (r: Option<(Vec<u8>, Vec<u8>)>)
    ensures
        match r {
            Some((h, p)) => host_port(hostport@) == Some((h@, p@)),
            None => host_port(hostport@) is None,
        },
{
    proof {
        text::lemma_last_index(hostport@, COLON);
        text::lemma_first_index(hostport@, CLOSE_BRACKET);
    }
    let n: usize = hostport.len();
    let i = match text::rfind(hostport, COLON) {
        None => return None,
        Some(i) => i,
    };
    if hostport[0] == OPEN_BRACKET {
        let end = match text::find(hostport, CLOSE_BRACKET) {
            None => return None,
            Some(end) => end,
        };
        if end + 1 != i {
            return None;
        }
        let after_open = vstd::slice::slice_subrange(hostport, 1, n);
        let after_close = vstd::slice::slice_subrange(hostport, end + 1, n);
        if text::contains(after_open, OPEN_BRACKET) || text::contains(after_close, CLOSE_BRACKET) {
            return None;
        }
        let host = text::copy_range(hostport, 1, end);
        let port = text::copy_range(hostport, i + 1, n);
        Some((host, port))
    } else {
        let host = vstd::slice::slice_subrange(hostport, 0, i);
        if text::contains(host, COLON) || text::contains(hostport, OPEN_BRACKET) || text::contains(
            hostport,
            CLOSE_BRACKET,
        ) {
            return None;
        }
        let port = text::copy_range(hostport, i + 1, n);
        Some((text::to_vec(host), port))
    }
}

proof fn lemma_host_port_valid(s: Seq<u8>)
    requires
        valid_utf8(s),
    ensures
        host_port(s) matches Some((h, p)) ==> valid_utf8(h) && valid_utf8(p),
{
    text::lemma_last_index(s, COLON);
    text::lemma_first_index(s, CLOSE_BRACKET);
    if let Some(i) = text::last_index(s, COLON) {
        text::lemma_cut_at_ascii(s, i);
        text::lemma_cut_at_ascii(s, i + 1);
        if s[0] == OPEN_BRACKET {
            if let Some(end) = text::first_index(s, CLOSE_BRACKET) {
                text::lemma_cut_at_ascii(s, 1);
                let tail = s.skip(1);
                assert(tail[end - 1] == s[end]);
                text::lemma_cut_at_ascii(tail, end - 1);
                assert(tail.take(end - 1) =~= s.subrange(1, end));
            }
        }
    }
}

/// [`split_host_port_bytes`] on a string.
pub fn split_host_port(hostport: &str) -> (r: Option<(String, String)>)
    ensures
        match r {
            Some((h, p)) => host_port(encode_utf8(hostport@)) == Some(
                (encode_utf8(h@), encode_utf8(p@)),
            ),
            None => host_port(encode_utf8(hostport@)) is None,
        },
{
    proof {
        encode_utf8_valid_utf8(hostport@);
        lemma_host_port_valid(encode_utf8(hostport@));
    }
    match split_host_port_bytes(hostport.as_bytes()) {
        Some((h, p)) => Some((text::to_string(h), text::to_string(p))),
        None => None,
    }
}

fn drop_brackets(s: &[u8]) -> (r: Vec<u8>)
    ensures
        r@ == without_brackets(s@),
{
    let n: usize = s.len();
    if n >= 2 && s[0] == OPEN_BRACKET && s[n - 1] == CLOSE_BRACKET {
        text::copy_range(s, 1, n - 1)
    } else {
        text::to_vec(s)
    }
}

/// The address and the port of a peer. It never fails: what cannot be split is all address.
pub fn split_remote_addr_bytes(remote_addr: &[u8]) -> (r: (Vec<u8>, Vec<u8>))
    ensures
        (r.0@, r.1@) == remote_parts(remote_addr@),
{
    if let Some(parts) = split_host_port_bytes(remote_addr) {
        return parts;
    }
    proof {
        text::lemma_last_index(remote_addr@, COLON);
    }
    let n: usize = remote_addr.len();
    match text::rfind(remote_addr, COLON) {
        Some(i) => {
            let ip = drop_brackets(vstd::slice::slice_subrange(remote_addr, 0, i));
            let port = text::copy_range(remote_addr, i + 1, n);
            (ip, port)
        },
        None => (drop_brackets(remote_addr), Vec::new()),
    }
}

proof fn lemma_without_brackets_valid(s: Seq<u8>)
    requires
        valid_utf8(s),
    ensures
        valid_utf8(without_brackets(s)),
{
    if s.len() >= 2 && s[0] == OPEN_BRACKET && s.last() == CLOSE_BRACKET {
        text::lemma_cut_at_ascii(s, 1);
        let tail = s.skip(1);
        text::lemma_cut_at_ascii(tail, tail.len() - 1);
        assert(tail.take(tail.len() - 1) =~= s.subrange(1, s.len() - 1));
    }
}

/// [`split_remote_addr_bytes`] on a string.
pub fn split_remote_addr(remote_addr: &str) -> (r: (String, String))
    ensures
        (encode_utf8(r.0@), encode_utf8(r.1@)) == remote_parts(encode_utf8(remote_addr@)),
{
    proof {
        let s = encode_utf8(remote_addr@);
        encode_utf8_valid_utf8(remote_addr@);
        lemma_host_port_valid(s);
        text::lemma_last_index(s, COLON);
        match text::last_index(s, COLON) {
            Some(i) => {
                text::lemma_cut_at_ascii(s, i);
                text::lemma_cut_at_ascii(s, i + 1);
                lemma_without_brackets_valid(s.take(i));
            },
            None => {
                lemma_without_brackets_valid(s);
            },
        }
    }
    let (ip, port) = split_remote_addr_bytes(remote_addr.as_bytes());
    (text::to_string(ip), text::to_string(port))
}

/// The CGI reading of a request path below a document root: the document URI, the path info,
/// the script's name and the script's file name.
pub open spec fn cgi_paths(path: Seq<u8>, splits: Seq<Seq<u8>>, root: Seq<u8>) -> (
    Seq<u8>,
    Seq<u8>,
    Seq<u8>,
    Seq<u8>,
) {
    let name = match split_point(path, splits) {
        Some(p) => with_leading_slash(path.take(p)),
        None => with_leading_slash(path),
    };
    match split_point(path, splits) {
        Some(p) => (path.take(p), path.skip(p), name, path::joined_path(root, name)),
        None => (seq![], seq![], name, path::joined_path(root, name)),
    }
}

/// What [`split_cgi_path_bytes`] finds.
#[derive(Debug, Clone, PartialEq, Eq)]
pub struct CgiPaths {
    pub doc_uri: Vec<u8>,
    pub path_info: Vec<u8>,
    pub script_name: Vec<u8>,
    pub script_filename: Vec<u8>,
}

impl View for CgiPaths {
    type V = (Seq<u8>, Seq<u8>, Seq<u8>, Seq<u8>);

    open spec fn view(&self) -> (Seq<u8>, Seq<u8>, Seq<u8>, Seq<u8>) {
        (self.doc_uri@, self.path_info@, self.script_name@, self.script_filename@)
    }
}

/// Cuts a request path into the script and what follows it, and finds the script below the
/// document root.
pub fn split_cgi_path_bytes(path: &[u8], split_path: &[String], document_root: &[u8]) -> (r: CgiPaths)
    ensures
        r@ == cgi_paths(path@, text::string_bytes(split_path@), document_root@),
{
    match split_point_bytes(path, split_path) {
        Some(p) => {
            let doc_uri = text::copy_range(path, 0, p);
            let path_info = text::copy_range(path, p, path.len());
            let script_name = ensure_leading_slash_bytes(doc_uri.as_slice());
            let script_filename = path::sanitized_path_join_bytes(
                document_root,
                script_name.as_slice(),
            );
            CgiPaths { doc_uri, path_info, script_name, script_filename }
        },
        None => {
            let script_name = ensure_leading_slash_bytes(path);
            let script_filename = path::sanitized_path_join_bytes(
                document_root,
                script_name.as_slice(),
            );
            let r = CgiPaths {
                doc_uri: Vec::new(),
                path_info: Vec::new(),
                script_name,
                script_filename,
            };
            r
        },
    }
}

proof fn lemma_first_match(path: Seq<u8>, split: Seq<u8>, from: int)
    ensures
        first_match(path, split, from) matches Some(i) ==> from <= i && matches_at(path, split, i)
            && forall|k: int| from <= k < i ==> !#[trigger] matches_at(path, split, k),
        first_match(path, split, from) is None && from >= 0 ==> forall|k: int|
            from <= k ==> !#[trigger] matches_at(path, split, k),
    decreases path.len() - from,
{
    if from >= 0 && from + split.len() <= path.len() && !matches_at(path, split, from) {
        lemma_first_match(path, split, from + 1);
    }
}

/// A split point lies behind an ASCII byte, inside the path.
proof fn lemma_first_split(path: Seq<u8>, splits: Seq<Seq<u8>>)
    ensures
        first_split(path, splits) matches Some(p) ==> 0 < p <= path.len() && path[p - 1] < 0x80,
    decreases splits.len(),
{
    if splits.len() > 0 {
        let split = splits[0];
        lemma_first_match(path, split, 0);
        if split.len() > 0 && first_match(path, split, 0) is Some {
            let i = first_match(path, split, 0)->0;
            assert(byte_matches(path[i + (split.len() - 1)], split[split.len() - 1]));
        } else {
            lemma_first_split(path, splits.skip(1));
        }
    }
}

/// [`split_cgi_path_bytes`] on strings: the document URI, the path info, the script's name and
/// the script's file name.
pub fn split_cgi_path(path: &str, split_path: &[String], document_root: &str) -> (r: (
    String,
    String,
    String,
    String,
))
    ensures
        (encode_utf8(r.0@), encode_utf8(r.1@), encode_utf8(r.2@), encode_utf8(r.3@)) == cgi_paths(
            encode_utf8(path@),
            text::string_bytes(split_path@),
            encode_utf8(document_root@),
        ),
{
    let ghost b = encode_utf8(path@);
    let ghost splits = text::string_bytes(split_path@);
    let paths = split_cgi_path_bytes(path.as_bytes(), split_path, document_root.as_bytes());
    proof {
        encode_utf8_valid_utf8(path@);
        encode_utf8_valid_utf8(document_root@);
        lemma_first_split(b, splits);
        let head = match split_point(b, splits) {
            Some(p) => b.take(p),
            None => b,
        };
        if let Some(p) = split_point(b, splits) {
            text::lemma_cut_at_ascii(b, p);
        }
        text::lemma_ascii_valid(seq![SLASH]);
        valid_utf8_concat(seq![SLASH], head);
        path::lemma_joined_path_valid(encode_utf8(document_root@), with_leading_slash(head));
        text::lemma_ascii_valid(seq![]);
    }
    (
        text::to_string(paths.doc_uri),
        text::to_string(paths.path_info),
        text::to_string(paths.script_name),
        text::to_string(paths.script_filename),
    )
}

/// A split takes nothing away: where the path splits, the document URI followed by the path info
/// is the path, and where it does not, both are empty and the script's name is the whole path.
pub proof fn lemma_split_partitions_path(path: Seq<u8>, splits: Seq<Seq<u8>>, root: Seq<u8>)
    ensures
        ({
            let (doc_uri, path_info, script_name, script_filename) = cgi_paths(path, splits, root);
            match split_point(path, splits) {
                Some(p) => doc_uri + path_info == path && script_name == with_leading_slash(doc_uri),
                None => doc_uri.len() == 0 && path_info.len() == 0 && script_name
                    == with_leading_slash(path),
            }
        }),
{
    lemma_first_split(path, splits);
    if let Some(p) = split_point(path, splits) {
        assert(path.take(p) + path.skip(p) =~= path);
    }
}

/// No request reaches a script outside the document root: the script's file name has the
/// components of the cleaned root, followed by components of which none is `.` or `..`.
pub proof fn lemma_script_stays_below_root(path: Seq<u8>, splits: Seq<Seq<u8>>, root: Seq<u8>)
    requires
        path::rooted(root),
    ensures
        ({
            let (doc_uri, path_info, script_name, script_filename) = cgi_paths(path, splits, root);
            let kept = path::resolved(true, path::components(root));
            let below = path::resolved(true, path::components(script_name));
            &&& path::components(script_filename) == kept + below
            &&& forall|i: int|
                0 <= i < below.len() ==> #[trigger] below[i] != path::dot() && below[i]
                    != path::dot_dot()
        }),
{
    path::lemma_join_stays_below_root(root, cgi_paths(path, splits, root).2);
}

pub open spec fn ascii_bytes(s: Seq<u8>) -> bool {
    forall|i: int| 0 <= i < s.len() ==> #[trigger] s[i] < 0x80
}

/// The bytes with ASCII capitals made small.
pub open spec fn folded(s: Seq<u8>) -> Seq<u8> {
    s.map_values(|b: u8| text::lower(b))
}

/// An entry in the normal form matches exactly where the path holds ASCII bytes that equal the
/// configured entry without regard to case.
pub proof fn lemma_normal_entry_ignores_case(path: Seq<u8>, entry: Seq<char>, i: int)
    requires
        is_ascii_chars(entry),
        0 <= i,
        i + encode_utf8(entry).len() <= path.len(),
    ensures
        matches_at(path, encode_utf8(text::lower_chars(entry)), i) <==> {
            let here = path.subrange(i, i + encode_utf8(entry).len());
            ascii_bytes(here) && folded(here) == folded(encode_utf8(entry))
        },
{
    let low = text::lower_chars(entry);
    assert forall|k: int| 0 <= k < low.len() implies '\0' <= #[trigger] low[k] <= '\u{7f}' by {
        assert('\0' <= entry[k] <= '\u{7f}');
    }
    is_ascii_chars_encode_utf8(entry);
    is_ascii_chars_encode_utf8(low);
    let a = encode_utf8(entry);
    let b = encode_utf8(low);
    assert(b =~= folded(a)) by {
        assert forall|j: int| 0 <= j < a.len() implies #[trigger] b[j] == folded(a)[j] by {
            assert(entry[j] as u8 == a[j]);
            assert(low[j] as u8 == b[j]);
            assert('\0' <= entry[j] <= '\u{7f}');
        }
    }
    let here = path.subrange(i, i + a.len());
    if matches_at(path, b, i) {
        assert forall|j: int| 0 <= j < here.len() implies #[trigger] here[j] < 0x80 by {
            assert(byte_matches(path[i + j], b[j]));
        }
        assert forall|j: int| 0 <= j < here.len() implies #[trigger] folded(here)[j] == b[j] by {
            assert(byte_matches(path[i + j], b[j]));
        }
        assert(folded(here) =~= folded(a));
    }
    if ascii_bytes(here) && folded(here) == folded(a) {
        assert forall|j: int| 0 <= j < b.len() implies byte_matches(path[i + j], #[trigger] b[j]) by {
            assert(here[j] < 0x80);
            assert(folded(here)[j] == text::lower(here[j]));
        }
    }
}

/// A plain `host:port` splits into just these.
pub proof fn lemma_host_port_of_plain_host(host: Seq<u8>, port: Seq<u8>)
    requires
        !host.contains(COLON),
        !host.contains(OPEN_BRACKET),
        !host.contains(CLOSE_BRACKET),
        !port.contains(COLON),
        !port.contains(OPEN_BRACKET),
        !port.contains(CLOSE_BRACKET),
    ensures
        host_port(host.push(COLON) + port) == Some((host, port)),
{
    let s = host.push(COLON) + port;
    let n = host.len() as int;
    lemma_last_colon(host, port);
    assert(s.take(n) =~= host);
    assert(s.skip(n + 1) =~= port);
    assert forall|k: int| 0 <= k < s.len() implies s[k] != OPEN_BRACKET && s[k] != CLOSE_BRACKET by {
        if k < n {
            assert(s[k] == host[k]);
        } else if k > n {
            assert(s[k] == port[k - n - 1]);
        }
    }
}

/// A bracketed `[host]:port` splits into the host without its brackets and the port, whatever
/// colons the host holds.
pub proof fn lemma_host_port_of_bracketed_host(host: Seq<u8>, port: Seq<u8>)
    requires
        !host.contains(OPEN_BRACKET),
        !host.contains(CLOSE_BRACKET),
        !port.contains(COLON),
        !port.contains(OPEN_BRACKET),
        !port.contains(CLOSE_BRACKET),
    ensures
        host_port((seq![OPEN_BRACKET] + host).push(CLOSE_BRACKET).push(COLON) + port) == Some(
            (host, port),
        ),
{
    let head = (seq![OPEN_BRACKET] + host).push(CLOSE_BRACKET);
    let s = head.push(COLON) + port;
    let end = host.len() as int + 1;
    lemma_last_colon(head, port);
    text::lemma_first_index(s, CLOSE_BRACKET);
    assert(s[end] == CLOSE_BRACKET);
    assert forall|k: int| 0 <= k < s.len() && k != 0 && k != end implies s[k] != OPEN_BRACKET
        && s[k] != CLOSE_BRACKET by {
        if k < end {
            assert(s[k] == host[k - 1]);
        } else if k > end + 1 {
            assert(s[k] == port[k - end - 2]);
        }
    }
    let found = text::first_index(s, CLOSE_BRACKET);
    assert(found is Some) by {
        assert(s.contains(s[end]));
    }
    assert(found == Some(end));
    assert(s.subrange(1, end) =~= host);
    assert(s.skip(end + 2) =~= port);
    assert forall|k: int| 0 <= k < s.skip(1).len() implies s.skip(1)[k] != OPEN_BRACKET by {
        assert(s.skip(1)[k] == s[k + 1]);
    }
    let after = s.skip(end + 1);
    assert forall|k: int| 0 <= k < after.len() implies after[k] != CLOSE_BRACKET by {
        assert(after[k] == s[k + end + 1]);
    }
}

proof fn lemma_last_colon(head: Seq<u8>, tail: Seq<u8>)
    requires
        !tail.contains(COLON),
    ensures
        text::last_index(head.push(COLON) + tail, COLON) == Some(head.len() as int),
{
    let s = head.push(COLON) + tail;
    let n = head.len() as int;
    text::lemma_last_index(s, COLON);
    assert(s[n] == COLON);
    assert(s.contains(s[n]));
    let i = text::last_index(s, COLON)->0;
    if i < n {
        assert(s.skip(i + 1)[n - i - 1] == COLON);
    }
    if i > n {
        assert(s[i] == tail[i - n - 1]);
    }
}

/// The request headers whose `$_SERVER` name is known beforehand, with that name.
pub const COMMON_HEADERS: [(&'static str, &'static str); 101] = [
    ("Accept", "HTTP_ACCEPT"),
    ("Accept-Charset", "HTTP_ACCEPT_CHARSET"),
    ("Accept-Encoding", "HTTP_ACCEPT_ENCODING"),
    ("Accept-Language", "HTTP_ACCEPT_LANGUAGE"),
    ("Access-Control-Request-Headers", "HTTP_ACCESS_CONTROL_REQUEST_HEADERS"),
    ("Access-Control-Request-Method", "HTTP_ACCESS_CONTROL_REQUEST_METHOD"),
    ("Authorization", "HTTP_AUTHORIZATION"),
    ("Cache-Control", "HTTP_CACHE_CONTROL"),
    ("Connection", "HTTP_CONNECTION"),
    ("Content-Disposition", "HTTP_CONTENT_DISPOSITION"),
    ("Content-Encoding", "HTTP_CONTENT_ENCODING"),
    ("Content-Length", "HTTP_CONTENT_LENGTH"),
    ("Content-Type", "HTTP_CONTENT_TYPE"),
    ("Cookie", "HTTP_COOKIE"),
    ("Date", "HTTP_DATE"),
    ("Device-Memory", "HTTP_DEVICE_MEMORY"),
    ("Dnt", "HTTP_DNT"),
    ("Downlink", "HTTP_DOWNLINK"),
    ("Dpr", "HTTP_DPR"),
    ("Early-Data", "HTTP_EARLY_DATA"),
    ("Ect", "HTTP_ECT"),
    ("Am-I", "HTTP_AM_I"),
    ("Expect", "HTTP_EXPECT"),
    ("Forwarded", "HTTP_FORWARDED"),
    ("From", "HTTP_FROM"),
    ("Host", "HTTP_HOST"),
    ("If-Match", "HTTP_IF_MATCH"),
    ("If-Modified-Since", "HTTP_IF_MODIFIED_SINCE"),
    ("If-None-Match", "HTTP_IF_NONE_MATCH"),
    ("If-Range", "HTTP_IF_RANGE"),
    ("If-Unmodified-Since", "HTTP_IF_UNMODIFIED_SINCE"),
    ("Keep-Alive", "HTTP_KEEP_ALIVE"),
    ("Max-Forwards", "HTTP_MAX_FORWARDS"),
    ("Origin", "HTTP_ORIGIN"),
    ("Pragma", "HTTP_PRAGMA"),
    ("Proxy-Authorization", "HTTP_PROXY_AUTHORIZATION"),
    ("Range", "HTTP_RANGE"),
    ("Referer", "HTTP_REFERER"),
    ("Rtt", "HTTP_RTT"),
    ("Save-Data", "HTTP_SAVE_DATA"),
    ("Sec-Ch-Ua", "HTTP_SEC_CH_UA"),
    ("Sec-Ch-Ua-Arch", "HTTP_SEC_CH_UA_ARCH"),
    ("Sec-Ch-Ua-Bitness", "HTTP_SEC_CH_UA_BITNESS"),
    ("Sec-Ch-Ua-Full-Version", "HTTP_SEC_CH_UA_FULL_VERSION"),
    ("Sec-Ch-Ua-Full-Version-List", "HTTP_SEC_CH_UA_FULL_VERSION_LIST"),
    ("Sec-Ch-Ua-Mobile", "HTTP_SEC_CH_UA_MOBILE"),
    ("Sec-Ch-Ua-Model", "HTTP_SEC_CH_UA_MODEL"),
    ("Sec-Ch-Ua-Platform", "HTTP_SEC_CH_UA_PLATFORM"),
    ("Sec-Ch-Ua-Platform-Version", "HTTP_SEC_CH_UA_PLATFORM_VERSION"),
    ("Sec-Fetch-Dest", "HTTP_SEC_FETCH_DEST"),
    ("Sec-Fetch-Mode", "HTTP_SEC_FETCH_MODE"),
    ("Sec-Fetch-Site", "HTTP_SEC_FETCH_SITE"),
    ("Sec-Fetch-User", "HTTP_SEC_FETCH_USER"),
    ("Sec-Gpc", "HTTP_SEC_GPC"),
    ("Service-Worker-Navigation-Preload", "HTTP_SERVICE_WORKER_NAVIGATION_PRELOAD"),
    ("Te", "HTTP_TE"),
    ("Priority", "HTTP_PRIORITY"),
    ("Trailer", "HTTP_TRAILER"),
    ("Transfer-Encoding", "HTTP_TRANSFER_ENCODING"),
    ("Upgrade", "HTTP_UPGRADE"),
    ("Upgrade-Insecure-Requests", "HTTP_UPGRADE_INSECURE_REQUESTS"),
    ("User-Agent", "HTTP_USER_AGENT"),
    ("Via", "HTTP_VIA"),
    ("Viewport-Width", "HTTP_VIEWPORT_WIDTH"),
    ("Want-Digest", "HTTP_WANT_DIGEST"),
    ("Warning", "HTTP_WARNING"),
    ("Width", "HTTP_WIDTH"),
    ("X-Forwarded-For", "HTTP_X_FORWARDED_FOR"),
    ("X-Forwarded-Host", "HTTP_X_FORWARDED_HOST"),
    ("X-Forwarded-Path", "HTTP_X_FORWARDED_PATH"),
    ("X-Forwarded-Prefix", "HTTP_X_FORWARDED_PREFIX"),
    ("X-Forwarded-Proto", "HTTP_X_FORWARDED_PROTO"),
    ("A-Im", "HTTP_A_IM"),
    ("Accept-Datetime", "HTTP_ACCEPT_DATETIME"),
    ("Content-Md5", "HTTP_CONTENT_MD5"),
    ("Http2-Settings", "HTTP_HTTP2_SETTINGS"),
    ("Prefer", "HTTP_PREFER"),
    ("X-Requested-With", "HTTP_X_REQUESTED_WITH"),
    ("Front-End-Https", "HTTP_FRONT_END_HTTPS"),
    ("X-Http-Method-Override", "HTTP_X_HTTP_METHOD_OVERRIDE"),
    ("X-Att-Deviceid", "HTTP_X_ATT_DEVICEID"),
    ("X-Wap-Profile", "HTTP_X_WAP_PROFILE"),
    ("Proxy-Connection", "HTTP_PROXY_CONNECTION"),
    ("X-Uidh", "HTTP_X_UIDH"),
    ("X-Csrf-Token", "HTTP_X_CSRF_TOKEN"),
    ("X-Request-Id", "HTTP_X_REQUEST_ID"),
    ("X-Correlation-Id", "HTTP_X_CORRELATION_ID"),
    ("Cloudflare-Visitor", "HTTP_CLOUDFLARE_VISITOR"),
    ("Cloudfront-Viewer-Address", "HTTP_CLOUDFRONT_VIEWER_ADDRESS"),
    ("Cloudfront-Viewer-Country", "HTTP_CLOUDFRONT_VIEWER_COUNTRY"),
    ("X-Amzn-Trace-Id", "HTTP_X_AMZN_TRACE_ID"),
    ("X-Cloud-Trace-Context", "HTTP_X_CLOUD_TRACE_CONTEXT"),
    ("Cf-Ray", "HTTP_CF_RAY"),
    ("Cf-Visitor", "HTTP_CF_VISITOR"),
    ("Cf-Request-Id", "HTTP_CF_REQUEST_ID"),
    ("Cf-Ipcountry", "HTTP_CF_IPCOUNTRY"),
    ("X-Device-Type", "HTTP_X_DEVICE_TYPE"),
    ("X-Network-Info", "HTTP_X_NETWORK_INFO"),
    ("X-Client-Id", "HTTP_X_CLIENT_ID"),
    ("X-Livewire", "HTTP_X_LIVEWIRE"),
    ("X-Real-Ip", "HTTP_X_REAL_IP"),
];

/// The second string of the first pair whose first string is `name`.
pub open spec fn paired_with(pairs: Seq<(&'static str, &'static str)>, name: Seq<char>) -> Option<
    Seq<char>,
>
    decreases pairs.len(),
{
    if pairs.len() == 0 {
        None
    } else if pairs[0].0@ == name {
        Some(pairs[0].1@)
    } else {
        paired_with(pairs.skip(1), name)
    }
}

/// The `$_SERVER` name of a common header.
pub open spec fn common_variable(name: Seq<char>) -> Option<Seq<char>> {
    paired_with(COMMON_HEADERS@, name)
}

/// The `$_SERVER` name of a header in the table of common ones.
pub fn common_header_variable(name: &str) -> (r: Option<&'static str>)
    ensures
        match r {
            Some(variable) => common_variable(name@) == Some(variable@),
            None => common_variable(name@) is None,
        },
{
    let table = COMMON_HEADERS;
    let mut i: usize = 0;
    proof {
        assert(table@.skip(0) =~= table@);
    }
    while i < table.len()
        invariant
            i <= table@.len(),
            table@ == COMMON_HEADERS@,
            common_variable(name@) == paired_with(table@.skip(i as int), name@),
        decreases table@.len() - i,
    {
        let entry = table[i];
        assert(table@.skip(i as int).skip(1) =~= table@.skip(i + 1));
        if text::same_str(entry.0, name) {
            return Some(entry.1);
        }
        i = i + 1;
    }
    None
}

/// A byte of a header name as it stands in a `$_SERVER` name.
pub open spec fn mangled_byte(b: u8) -> u8 {
    if b == HYPHEN {
        UNDERSCORE
    } else {
        text::upper(b)
    }
}

/// `HTTP_` and the header name in capitals, with underscores for hyphens and a NUL at the end.
pub open spec fn mangled_key(name: Seq<u8>) -> Seq<u8> {
    (encode_utf8("HTTP_"@) + name.map_values(|b: u8| mangled_byte(b))).push(0)
}

/// The NUL-terminated `$_SERVER` name of any header.
pub fn uncommon_header_key(name: &str) -> (r: Vec<u8>)
    ensures
        r@ == mangled_key(encode_utf8(name@)),
{
    let bytes = name.as_bytes();
    let mut r = text::str_bytes("HTTP_");
    let ghost prefix = r@;
    let ghost all = bytes@.map_values(|b: u8| mangled_byte(b));
    let mut i: usize = 0;
    proof {
        assert(r@ =~= prefix + all.take(0));
    }
    while i < bytes.len()
        invariant
            i <= bytes@.len(),
            all == bytes@.map_values(|b: u8| mangled_byte(b)),
            r@ == prefix + all.take(i as int),
        decreases bytes@.len() - i,
    {
        let b = bytes[i];
        if b == HYPHEN {
            r.push(UNDERSCORE);
        } else {
            r.push(text::to_upper(b));
        }
        assert(r@ =~= prefix + all.take(i + 1));
        i = i + 1;
    }
    assert(all.take(i as int) =~= all);
    r.push(0);
    r
}

/// The separator between the values of a repeated header.
pub open spec fn comma_space() -> Seq<u8> {
    seq![COMMA, SPACE]
}

/// The values of a repeated header with a comma and a space between neighbours.
pub fn join_header_values(values: &[Vec<u8>]) -> (r: Vec<u8>)
    ensures
        r@ == text::joined_with(text::views(values@), comma_space()),
{
    let mut sep: Vec<u8> = Vec::new();
    sep.push(COMMA);
    sep.push(SPACE);
    assert(sep@ =~= comma_space());
    text::join_values(values, sep.as_slice())
}

/// A path has a leading slash put in front only where it has none, and is otherwise untouched.
pub proof fn lemma_leading_slash(p: Seq<u8>)
    ensures
        p.len() == 0 ==> with_leading_slash(p) == p,
        p.len() > 0 ==> with_leading_slash(p)[0] == 0x2f,
        p.len() > 0 && p[0] == 0x2f ==> with_leading_slash(p) == p,
        p.len() > 0 && p[0] != 0x2f ==> with_leading_slash(p) == seq![0x2fu8] + p,
{
}

proof fn lemma_match_is_first(path: Seq<u8>, split: Seq<u8>, from: int, i: int)
    requires
        0 <= from <= i,
        matches_at(path, split, i),
        forall|j: int| from <= j < i ==> !matches_at(path, split, j),
    ensures
        first_match(path, split, from) == Some(i),
    decreases i - from,
{
    if from < i {
        assert(!matches_at(path, split, from));
        lemma_match_is_first(path, split, from + 1, i);
    }
}

proof fn lemma_no_match(path: Seq<u8>, split: Seq<u8>, from: int)
    requires
        0 <= from,
        forall|j: int| from <= j ==> !matches_at(path, split, j),
    ensures
        first_match(path, split, from) is None,
    decreases path.len() - from,
{
    if from + split.len() <= path.len() {
        assert(!matches_at(path, split, from));
        lemma_no_match(path, split, from + 1);
    }
}

/// Whether a path reads at a place as an entry does, with ASCII capitals for small letters.
pub open spec fn reads_as(path: Seq<u8>, entry: Seq<u8>, i: int) -> bool {
    &&& 0 <= i
    &&& i + entry.len() <= path.len()
    &&& forall|k: int|
        0 <= k < entry.len() ==> path[i + k] == #[trigger] entry[k] || 0x41 <= path[i + k] <= 0x5a
            && path[i + k] + 0x20 == entry[k]
}

/// Whether an entry is made of ASCII without capitals.
pub open spec fn is_small_ascii(entry: Seq<u8>) -> bool {
    forall|k: int|
        0 <= k < entry.len() ==> #[trigger] entry[k] < 0x80 && !(0x41 <= entry[k] <= 0x5a)
}

proof fn lemma_reads_as(path: Seq<u8>, entry: Seq<u8>, i: int)
    requires
        is_small_ascii(entry),
    ensures
        matches_at(path, entry, i) == reads_as(path, entry, i),
{
    if reads_as(path, entry, i) {
        assert forall|j: int| 0 <= j < entry.len() implies byte_matches(
            path[i + j],
            #[trigger] entry[j],
        ) by {
            assert(entry[j] < 0x80);
        }
    }
    if matches_at(path, entry, i) {
        assert forall|k: int| 0 <= k < entry.len() implies path[i + k] == #[trigger] entry[k] || 0x41
            <= path[i + k] <= 0x5a && path[i + k] + 0x20 == entry[k] by {
            assert(byte_matches(path[i + k], entry[k]));
        }
    }
}

/// The script is the path up to the end of the first place where the first entry stands, read
/// without regard to the case of ASCII letters, and what follows it is the path info.
pub proof fn lemma_script_ends_behind_the_entry(
    path: Seq<u8>,
    splits: Seq<Seq<u8>>,
    root: Seq<u8>,
    i: int,
)
    requires
        splits.len() > 0,
        splits[0].len() > 0,
        is_small_ascii(splits[0]),
        reads_as(path, splits[0], i),
        forall|j: int| 0 <= j < i ==> !#[trigger] reads_as(path, splits[0], j),
    ensures
        split_point(path, splits) == Some(i + splits[0].len()),
        ({
            let (doc_uri, path_info, script_name, script_filename) = cgi_paths(path, splits, root);
            let end = i + splits[0].len();
            &&& doc_uri == path.take(end)
            &&& path_info == path.skip(end)
            &&& script_name == with_leading_slash(path.take(end))
            &&& script_filename == path::joined_path(root, script_name)
        }),
{
    let split = splits[0];
    lemma_reads_as(path, split, i);
    assert forall|j: int| 0 <= j < i implies !matches_at(path, split, j) by {
        lemma_reads_as(path, split, j);
        assert(!reads_as(path, split, j));
    }
    lemma_match_is_first(path, split, 0, i);
}

/// Where the first entry stands nowhere in a path, or is empty, the path is split as if it were
/// not there; with no entry left there is no split, and the script's name is the whole path.
pub proof fn lemma_absent_entry_does_not_count(path: Seq<u8>, splits: Seq<Seq<u8>>, root: Seq<u8>)
    requires
        splits.len() > 0,
        is_small_ascii(splits[0]),
        splits[0].len() == 0 || forall|j: int| 0 <= j ==> !#[trigger] reads_as(path, splits[0], j),
    ensures
        splits.len() > 1 ==> split_point(path, splits) == split_point(path, splits.skip(1)),
        splits.len() == 1 ==> split_point(path, splits) is None,
        splits.len() == 1 ==> cgi_paths(path, splits, root) == (
            Seq::<u8>::empty(),
            Seq::<u8>::empty(),
            with_leading_slash(path),
            path::joined_path(root, with_leading_slash(path)),
        ),
        split_point(path, seq![]) == Some(0int),
{
    let split = splits[0];
    if split.len() > 0 {
        assert forall|j: int| 0 <= j implies !matches_at(path, split, j) by {
            lemma_reads_as(path, split, j);
            assert(!reads_as(path, split, j));
        }
        lemma_no_match(path, split, 0);
    }
}

/// A host and a port are only ever read from what they were written as: with a colon between
/// them, the host in brackets or free of colons and brackets. What has no colon has no port.
pub proof fn lemma_host_port_is_what_was_written(s: Seq<u8>)
    ensures
        host_port(s) matches Some((host, port)) ==> {
            &&& s == host + seq![0x3au8] + port || s == seq![0x5bu8] + host + seq![0x5du8, 0x3au8]
                + port
            &&& !port.contains(0x3au8)
            &&& s[0] == 0x5b || !host.contains(0x3au8)
        },
        !s.contains(0x3au8) ==> host_port(s) is None,
        s.len() > 0 && s[0] != 0x5b && (s.contains(0x5bu8) || s.contains(0x5du8)) ==> host_port(
            s,
        ) is None,
{
    text::lemma_last_index(s, COLON);
    text::lemma_first_index(s, CLOSE_BRACKET);
    if let Some((host, port)) = host_port(s) {
        let i = text::last_index(s, COLON)->0;
        if s[0] == OPEN_BRACKET {
            let end = text::first_index(s, CLOSE_BRACKET)->0;
            assert(s =~= seq![0x5bu8] + host + seq![0x5du8, 0x3au8] + port);
        } else {
            assert(s =~= host + seq![0x3au8] + port);
        }
    }
}

/// The address and the port of a peer are found however they are written: `host:port`,
/// `[host]:port`, a bare address of one or several colons, and an address alone, with or without
/// brackets.
pub proof fn lemma_peer_is_found(host: Seq<u8>, port: Seq<u8>)
    requires
        host.len() > 0,
        !host.contains(0x5bu8),
        !host.contains(0x5du8),
        !port.contains(0x3au8),
        !port.contains(0x5bu8),
        !port.contains(0x5du8),
    ensures
        remote_parts(host + seq![0x3au8] + port) == (host, port),
        remote_parts(seq![0x5bu8] + host + seq![0x5du8, 0x3au8] + port) == (host, port),
        !host.contains(0x3au8) ==> remote_parts(host) == (host, Seq::<u8>::empty()),
        !host.contains(0x3au8) ==> remote_parts(seq![0x5bu8] + host + seq![0x5du8]) == (
            host,
            Seq::<u8>::empty(),
        ),
{
    let plain = host + seq![0x3au8] + port;
    assert(plain =~= host.push(COLON) + port);
    lemma_last_colon(host, port);
    assert(plain.take(host.len() as int) =~= host);
    assert(plain.skip(host.len() as int + 1) =~= port);
    assert(host.contains(host[0]));
    assert(plain[0] == host[0]);
    let bracketed = seq![0x5bu8] + host + seq![0x5du8, 0x3au8] + port;
    assert(bracketed =~= (seq![OPEN_BRACKET] + host).push(CLOSE_BRACKET).push(COLON) + port);
    lemma_host_port_of_bracketed_host(host, port);
    if host.contains(0x3au8) {
        lemma_host_port_is_what_was_written(plain);
        assert(plain.take(host.len() as int).contains(COLON));
    } else {
        lemma_host_port_of_plain_host(host, port);
        text::lemma_last_index(host, COLON);
        let alone = seq![0x5bu8] + host + seq![0x5du8];
        text::lemma_last_index(alone, COLON);
        if let Some(i) = text::last_index(alone, COLON) {
            assert(alone[i] == COLON);
            assert(host[i - 1] == COLON);
        }
        assert(alone.subrange(1, alone.len() - 1) =~= host);
    }
}

/// The `$_SERVER` name of a header is its name behind `HTTP_`, letter by letter: a hyphen is an
/// underscore, a small letter is a capital, anything else stays, and a NUL ends it.
pub proof fn lemma_mangled_letters(name: Seq<u8>)
    ensures
        mangled_key(name).len() == name.len() + 6,
        mangled_key(name).take(5) == seq![0x48u8, 0x54u8, 0x54u8, 0x50u8, 0x5fu8],
        mangled_key(name).last() == 0,
        forall|i: int|
            0 <= i < name.len() ==> #[trigger] mangled_key(name)[i + 5] == (if name[i] == 0x2d {
                0x5fint
            } else if 0x61 <= name[i] <= 0x7a {
                name[i] - 0x20
            } else {
                name[i] as int
            }),
{
    reveal_strlit("HTTP_");
    let prefix = encode_utf8("HTTP_"@);
    assert(is_ascii_chars("HTTP_"@)) by {
        assert("HTTP_"@.len() == 5);
    }
    is_ascii_chars_encode_utf8("HTTP_"@);
    assert(prefix =~= seq![0x48u8, 0x54u8, 0x54u8, 0x50u8, 0x5fu8]);
    let key = mangled_key(name);
    assert(key.take(5) =~= prefix);
    assert forall|i: int| 0 <= i < name.len() implies #[trigger] key[i + 5] == (if name[i] == 0x2d {
        0x5fint
    } else if 0x61 <= name[i] <= 0x7a {
        name[i] - 0x20
    } else {
        name[i] as int
    }) by {
        assert(key[i + 5] == mangled_byte(name[i]));
    }
}

/// A name that is known beforehand has the variable that stands beside it in the table, and any
/// other has none there.
pub proof fn lemma_known_names_are_found(
    pairs: Seq<(&'static str, &'static str)>,
    name: Seq<char>,
    i: int,
)
    requires
        forall|k: int| 0 <= k < i && k < pairs.len() ==> (#[trigger] pairs[k]).0@ != name,
    ensures
        i >= pairs.len() ==> paired_with(pairs, name) is None,
        0 <= i < pairs.len() && pairs[i].0@ == name ==> paired_with(pairs, name) == Some(
            pairs[i].1@,
        ),
    decreases pairs.len(),
{
    if pairs.len() > 0 && i > 0 {
        assert(pairs[0].0@ != name);
        let rest = pairs.skip(1);
        assert forall|k: int| 0 <= k < i - 1 && k < rest.len() implies (#[trigger] rest[k]).0@
            != name by {
            assert(pairs[k + 1].0@ != name);
        }
        lemma_known_names_are_found(rest, name, i - 1);
        if i < pairs.len() {
            assert(rest[i - 1] == pairs[i]);
        }
    }
}

/// The values of a repeated header are joined by a comma and a space, in order.
pub proof fn lemma_values_are_joined(a: Seq<Seq<u8>>, b: Seq<Seq<u8>>)
    requires
        a.len() > 0,
        b.len() > 0,
    ensures
        text::joined_with(a + b, comma_space()) == text::joined_with(a, comma_space()) + seq![
            0x2cu8,
            0x20u8,
        ] + text::joined_with(b, comma_space()),
        a.len() == 1 ==> text::joined_with(a, comma_space()) == a[0],
{
    text::lemma_joined_in_order(a, b, comma_space());
}

/// The normal form of a split path has its entries in their order, each with its ASCII capitals
/// made small and nothing else changed.
pub proof fn lemma_normal_entries(split_path: Seq<Seq<char>>, i: int, k: int)
    requires
        0 <= i < split_path.len(),
        0 <= k < split_path[i].len(),
    ensures
        lowered(split_path).len() == split_path.len(),
        lowered(split_path)[i].len() == split_path[i].len(),
        lowered(split_path)[i][k] as u32 == (if 'A' <= split_path[i][k] <= 'Z' {
            split_path[i][k] as u32 + 0x20
        } else {
            split_path[i][k] as u32 as int
        }),
{
    text::lemma_case_of_characters(split_path[i][k]);
}

} // verus!
