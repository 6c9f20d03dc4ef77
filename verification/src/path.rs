//! Lexical path cleaning and the joining of a request path to a document root.
//!
//! A path is read as its components: the non-empty runs of bytes between slashes. Cleaning
//! drops `.`, lets `..` take back the component before it, and writes what is left with
//! single slashes. Nothing here looks at a file system.
use vstd::prelude::*;
use vstd::utf8::*;

use crate::text;
use crate::text::{DOT, SLASH};

verus! {

/// The component that stands for the directory itself.
pub open spec fn dot() -> Seq<u8> {
    seq![DOT]
}

/// The component that stands for the directory above.
pub open spec fn dot_dot() -> Seq<u8> {
    seq![DOT, DOT]
}

pub open spec fn rooted(p: Seq<u8>) -> bool {
    p.len() > 0 && p[0] == SLASH
}

/// How many bytes stand before the first slash.
pub open spec fn segment_len(p: Seq<u8>) -> nat
    decreases p.len(),
{
    if p.len() == 0 || p[0] == SLASH {
        0
    } else {
        1 + segment_len(p.skip(1))
    }
}

/// The non-empty runs of bytes between slashes, in order.
pub open spec fn components(p: Seq<u8>) -> Seq<Seq<u8>>
    decreases p.len(),
    via components_decreases
{
    if p.len() == 0 {
        seq![]
    } else if p[0] == SLASH {
        components(p.skip(1))
    } else {
        seq![p.take(segment_len(p) as int)] + components(p.skip(segment_len(p) as int))
    }
}

#[via_fn]
proof fn components_decreases(p: Seq<u8>) {
    if p.len() > 0 && p[0] != SLASH {
        lemma_segment_len(p);
    }
}

/// What one more component does to the components kept so far.
pub open spec fn step(is_rooted: bool, kept: Seq<Seq<u8>>, c: Seq<u8>) -> Seq<Seq<u8>> {
    if c == dot() {
        kept
    } else if c == dot_dot() {
        if kept.len() > 0 && kept.last() != dot_dot() {
            kept.drop_last()
        } else if is_rooted {
            kept
        } else {
            kept.push(c)
        }
    } else {
        kept.push(c)
    }
}

/// The components that remain once `.` and `..` have been resolved.
pub open spec fn resolved(is_rooted: bool, cs: Seq<Seq<u8>>) -> Seq<Seq<u8>>
    decreases cs.len(),
{
    if cs.len() == 0 {
        seq![]
    } else {
        step(is_rooted, resolved(is_rooted, cs.drop_last()), cs.last())
    }
}

/// The components with one slash between neighbours.
pub open spec fn joined(cs: Seq<Seq<u8>>) -> Seq<u8>
    decreases cs.len(),
{
    if cs.len() == 0 {
        seq![]
    } else if cs.len() == 1 {
        cs[0]
    } else {
        joined(cs.drop_last()).push(SLASH) + cs.last()
    }
}

/// The path that these components are written as.
pub open spec fn rendered(is_rooted: bool, cs: Seq<Seq<u8>>) -> Seq<u8> {
    if is_rooted {
        seq![SLASH] + joined(cs)
    } else if cs.len() == 0 {
        dot()
    } else {
        joined(cs)
    }
}

/// The shortest path lexically equal to `p`.
pub open spec fn cleaned(p: Seq<u8>) -> Seq<u8> {
    rendered(rooted(p), resolved(rooted(p), components(p)))
}

/// `.` for an empty document root, and the root itself otherwise.
pub open spec fn effective_root(root: Seq<u8>) -> Seq<u8> {
    if root.len() == 0 {
        dot()
    } else {
        root
    }
}

/// The request path resolved below the root: the request path is cleaned as a rooted path
/// first, so none of its `..` can reach the root, and the whole is cleaned again. A trailing
/// slash of the request path is kept.
pub open spec fn joined_path(root: Seq<u8>, req: Seq<u8>) -> Seq<u8> {
    let below = cleaned(effective_root(root).push(SLASH) + cleaned(seq![SLASH] + req));
    if req.len() > 1 && req.last() == SLASH {
        below.push(SLASH)
    } else {
        below
    }
}

pub proof fn lemma_segment_len(p: Seq<u8>)
    ensures
        segment_len(p) <= p.len(),
        !p.take(segment_len(p) as int).contains(SLASH),
        segment_len(p) < p.len() ==> p[segment_len(p) as int] == SLASH,
        p.len() > 0 && p[0] != SLASH ==> segment_len(p) > 0,
    decreases p.len(),
{
    if p.len() > 0 && p[0] != SLASH {
        lemma_segment_len(p.skip(1));
        let n = segment_len(p.skip(1));
        assert forall|j: int| 0 <= j < n + 1 implies p[j] != SLASH by {
            if j > 0 {
                assert(p[j] == p.skip(1).take(n as int)[j - 1]);
            }
        }
    }
}

/// A component is not empty and holds no slash.
pub open spec fn is_component(c: Seq<u8>) -> bool {
    c.len() > 0 && !c.contains(SLASH)
}

pub open spec fn all_components(cs: Seq<Seq<u8>>) -> bool {
    forall|i: int| 0 <= i < cs.len() ==> is_component(#[trigger] cs[i])
}

/// Every component of a path is one.
pub proof fn lemma_components_are_components(p: Seq<u8>)
    ensures
        all_components(components(p)),
    decreases p.len(),
{
    if p.len() == 0 {
    } else if p[0] == SLASH {
        lemma_components_are_components(p.skip(1));
    } else {
        lemma_segment_len(p);
        lemma_components_are_components(p.skip(segment_len(p) as int));
    }
}

/// Reads off the components of a run of bytes without a slash and what follows it.
proof fn lemma_components_of_segment(c: Seq<u8>, rest: Seq<u8>)
    requires
        is_component(c),
        rest.len() > 0 ==> rest[0] == SLASH,
    ensures
        components(c + rest) == seq![c] + components(rest),
{
    let p = c + rest;
    lemma_segment_len(p);
    let n = segment_len(p) as int;
    assert(p[0] == c[0]);
    assert(c.contains(c[0]));
    if n < c.len() {
        assert(p[n] == c[n]);
        assert(c.contains(c[n]));
    }
    if n > c.len() {
        assert(p.take(n)[c.len() as int] == rest[0]);
    }
    assert(p.take(n) =~= c);
    assert(p.skip(n) =~= rest);
}

/// The components of two paths with a slash between them are those of the one and then those
/// of the other.
pub proof fn lemma_components_append(a: Seq<u8>, b: Seq<u8>)
    ensures
        components(a.push(SLASH) + b) == components(a) + components(b),
    decreases a.len(),
{
    let p = a.push(SLASH) + b;
    if a.len() == 0 {
        assert(p.skip(1) =~= b);
        assert(components(a) + components(b) =~= components(b));
    } else if a[0] == SLASH {
        assert(p.skip(1) =~= a.skip(1).push(SLASH) + b);
        lemma_components_append(a.skip(1), b);
    } else {
        lemma_segment_len(a);
        let n = segment_len(a) as int;
        let c = a.take(n);
        let rest = a.skip(n).push(SLASH) + b;
        assert(p =~= c + rest);
        lemma_components_of_segment(c, rest);
        lemma_components_append(a.skip(n), b);
        assert(components(p) =~= components(a) + components(b));
    }
}

/// Writing components with slashes and reading them back gives the same components.
pub proof fn lemma_components_joined(cs: Seq<Seq<u8>>)
    requires
        all_components(cs),
    ensures
        components(joined(cs)) == cs,
        cs.len() > 0 ==> joined(cs).len() > 0 && joined(cs)[0] == cs[0][0],
    decreases cs.len(),
{
    if cs.len() == 0 {
    } else {
        let c = cs.last();
        lemma_components_of_segment(c, seq![]);
        assert(c + seq![] =~= c);
        assert(components(Seq::<u8>::empty()) =~= seq![]);
        if cs.len() == 1 {
            assert(components(joined(cs)) =~= cs);
        } else {
            lemma_components_joined(cs.drop_last());
            lemma_components_append(joined(cs.drop_last()), c);
            assert(components(joined(cs)) =~= cs);
        }
    }
}

/// What resolving leaves: components, none of them `.`, and `..` only at the front of a path
/// that is not rooted.
pub open spec fn is_resolved(is_rooted: bool, cs: Seq<Seq<u8>>) -> bool {
    &&& all_components(cs)
    &&& forall|i: int| 0 <= i < cs.len() ==> #[trigger] cs[i] != dot()
    &&& is_rooted ==> forall|i: int| 0 <= i < cs.len() ==> #[trigger] cs[i] != dot_dot()
    &&& forall|i: int, j: int|
        0 <= i < j < cs.len() && #[trigger] cs[j] == dot_dot() ==> #[trigger] cs[i] == dot_dot()
}

pub proof fn lemma_resolved(is_rooted: bool, cs: Seq<Seq<u8>>)
    requires
        all_components(cs),
    ensures
        is_resolved(is_rooted, resolved(is_rooted, cs)),
    decreases cs.len(),
{
    if cs.len() > 0 {
        lemma_resolved(is_rooted, cs.drop_last());
        assert(is_component(cs.last()));
    }
}

/// Resolving what is resolved changes nothing.
pub proof fn lemma_resolved_again(is_rooted: bool, cs: Seq<Seq<u8>>)
    requires
        is_resolved(is_rooted, cs),
    ensures
        resolved(is_rooted, cs) == cs,
    decreases cs.len(),
{
    if cs.len() > 0 {
        let front = cs.drop_last();
        assert(is_resolved(is_rooted, front)) by {
            assert forall|i: int| 0 <= i < front.len() implies is_component(#[trigger] front[i]) by {
                assert(is_component(cs[i]));
            }
        }
        lemma_resolved_again(is_rooted, front);
        if cs.last() == dot_dot() && front.len() > 0 {
            assert(cs[cs.len() - 1] == dot_dot());
            assert(cs[cs.len() - 2] == dot_dot());
        }
        assert(front.push(cs.last()) =~= cs);
        assert(cs[cs.len() - 1] != dot());
    } else {
        assert(resolved(is_rooted, cs) =~= cs);
    }
}

/// Components without `.` and `..` only add to what has been kept.
pub proof fn lemma_resolved_append(is_rooted: bool, a: Seq<Seq<u8>>, b: Seq<Seq<u8>>)
    requires
        forall|i: int| 0 <= i < b.len() ==> #[trigger] b[i] != dot() && b[i] != dot_dot(),
    ensures
        resolved(is_rooted, a + b) == resolved(is_rooted, a) + b,
    decreases b.len(),
{
    if b.len() == 0 {
        assert(a + b =~= a);
        assert(resolved(is_rooted, a) + b =~= resolved(is_rooted, a));
    } else {
        assert((a + b).drop_last() =~= a + b.drop_last());
        assert((a + b).last() == b[b.len() - 1]);
        assert forall|i: int| 0 <= i < b.drop_last().len() implies #[trigger] b.drop_last()[i]
            != dot() && b.drop_last()[i] != dot_dot() by {
            assert(b[i] != dot());
        }
        lemma_resolved_append(is_rooted, a, b.drop_last());
        assert(resolved(is_rooted, a + b) =~= resolved(is_rooted, a) + b);
    }
}

/// The components of a cleaned path are the resolved ones, and cleaning keeps a path rooted or
/// not.
pub proof fn lemma_components_cleaned(p: Seq<u8>)
    ensures
        rooted(cleaned(p)) == rooted(p),
        cleaned(p).len() > 0,
        rooted(p) ==> components(cleaned(p)) == resolved(true, components(p)),
        !rooted(p) && resolved(false, components(p)).len() > 0 ==> components(cleaned(p))
            == resolved(false, components(p)),
        !rooted(p) && resolved(false, components(p)).len() == 0 ==> cleaned(p) == dot(),
{
    let cs = resolved(rooted(p), components(p));
    lemma_components_are_components(p);
    lemma_resolved(rooted(p), components(p));
    lemma_components_joined(cs);
    if rooted(p) {
        assert(cleaned(p).skip(1) =~= joined(cs));
    } else if cs.len() > 0 {
        assert(is_component(cs[0]));
        assert(cs[0].contains(cs[0][0]));
    }
}

/// Cleaning a cleaned path changes nothing.
pub proof fn lemma_clean_idempotent(p: Seq<u8>)
    ensures
        cleaned(cleaned(p)) == cleaned(p),
{
    let cs = resolved(rooted(p), components(p));
    lemma_components_cleaned(p);
    lemma_components_are_components(p);
    lemma_resolved(rooted(p), components(p));
    lemma_resolved_again(rooted(p), cs);
    if !rooted(p) && cs.len() == 0 {
        let d = dot();
        assert(!rooted(d));
        assert(is_component(d));
        lemma_components_of_segment(d, seq![]);
        assert(d + seq![] =~= d);
        assert(components(Seq::<u8>::empty()) =~= seq![]);
        assert(components(d) =~= seq![d]);
        assert(resolved(false, seq![d]) =~= seq![]) by {
            assert(seq![d].drop_last() =~= seq![]);
            assert(resolved(false, Seq::<Seq<u8>>::empty()) =~= seq![]);
        }
    }
}

/// A cleaned rooted path holds no empty, `.` or `..` component: the path names what it reaches
/// directly.
pub proof fn lemma_clean_rooted_has_no_dots(p: Seq<u8>)
    requires
        rooted(p),
    ensures
        rooted(cleaned(p)),
        forall|i: int|
            0 <= i < components(cleaned(p)).len() ==> #[trigger] components(cleaned(p))[i] != dot()
                && components(cleaned(p))[i] != dot_dot(),
{
    lemma_components_cleaned(p);
    lemma_components_are_components(p);
    lemma_resolved(true, components(p));
}

/// No request path escapes the document root. The components of the joined path are those of
/// the cleaned root, followed by components of which none is `.` or `..`.
pub proof fn lemma_join_stays_below_root(root: Seq<u8>, req: Seq<u8>)
    ensures
        ({
            let kept = resolved(rooted(root), components(root));
            let below = resolved(true, components(req));
            &&& joined_path(root, req).len() > 0
            &&& rooted(joined_path(root, req)) == rooted(root)
            &&& kept.len() + below.len() > 0 || rooted(root) ==> components(joined_path(root, req)) == kept + below
            &&& forall|i: int|
                0 <= i < below.len() ==> #[trigger] below[i] != dot() && below[i] != dot_dot()
        }),
{
    let r = effective_root(root);
    let inner = seq![SLASH] + req;
    let below = resolved(true, components(req));
    assert(inner.skip(1) =~= req);
    assert(components(inner) == components(req));
    lemma_components_are_components(req);
    lemma_resolved(true, components(req));
    lemma_components_cleaned(inner);
    let kept = resolved(rooted(root), components(root));
    assert(resolved(rooted(r), components(r)) == kept) by {
        if root.len() == 0 {
            lemma_clean_dot();
            assert(components(root) =~= seq![]);
            assert(kept =~= seq![]);
        }
    }
    let whole = r.push(SLASH) + cleaned(inner);
    assert(whole[0] == r[0]);
    lemma_components_append(r, cleaned(inner));
    lemma_resolved_append(rooted(r), components(r), below);
    lemma_components_cleaned(whole);
    let out = cleaned(whole);
    assert(kept.len() + below.len() > 0 || rooted(root) ==> components(out) == kept + below);
    if req.len() > 1 && req.last() == SLASH {
        lemma_components_append(out, seq![]);
        assert(out.push(SLASH) + seq![] =~= out.push(SLASH));
        assert(components(Seq::<u8>::empty()) =~= seq![]);
        assert(components(out.push(SLASH)) =~= components(out));
    }
}

/// `.` has no component left once it is resolved.
proof fn lemma_clean_dot()
    ensures
        !rooted(dot()),
        resolved(false, components(dot())) == Seq::<Seq<u8>>::empty(),
{
    let d = dot();
    lemma_components_of_segment(d, seq![]);
    assert(d + seq![] =~= d);
    assert(components(Seq::<u8>::empty()) =~= seq![]);
    assert(components(d) =~= seq![d]);
    assert(seq![d].drop_last() =~= seq![]);
    assert(resolved(false, Seq::<Seq<u8>>::empty()) =~= seq![]);
}

spec fn all_valid(cs: Seq<Seq<u8>>) -> bool {
    forall|i: int| 0 <= i < cs.len() ==> valid_utf8(#[trigger] cs[i])
}

/// Every component of valid UTF-8 is valid UTF-8.
proof fn lemma_components_valid(p: Seq<u8>)
    requires
        valid_utf8(p),
    ensures
        all_valid(components(p)),
    decreases p.len(),
{
    if p.len() == 0 {
    } else if p[0] == SLASH {
        text::lemma_cut_at_ascii(p, 1);
        lemma_components_valid(p.skip(1));
    } else {
        let n = segment_len(p) as int;
        lemma_segment_len(p);
        text::lemma_cut_at_ascii(p, n);
        lemma_components_valid(p.skip(n));
        assert forall|i: int| 0 <= i < components(p).len() implies valid_utf8(
            #[trigger] components(p)[i],
        ) by {
            if i > 0 {
                assert(components(p)[i] == components(p.skip(n))[i - 1]);
            }
        }
    }
}

proof fn lemma_resolved_valid(is_rooted: bool, cs: Seq<Seq<u8>>)
    requires
        all_valid(cs),
    ensures
        all_valid(resolved(is_rooted, cs)),
    decreases cs.len(),
{
    if cs.len() > 0 {
        let front = cs.drop_last();
        assert(all_valid(front)) by {
            assert forall|i: int| 0 <= i < front.len() implies valid_utf8(#[trigger] front[i]) by {
                assert(valid_utf8(cs[i]));
            }
        }
        lemma_resolved_valid(is_rooted, front);
        assert(valid_utf8(cs[cs.len() - 1]));
        let before = resolved(is_rooted, front);
        let after = step(is_rooted, before, cs.last());
        assert forall|i: int| 0 <= i < after.len() implies valid_utf8(#[trigger] after[i]) by {
            if i < before.len() {
                assert(valid_utf8(before[i]));
            }
        }
    }
}

proof fn lemma_joined_valid(cs: Seq<Seq<u8>>)
    requires
        all_valid(cs),
    ensures
        valid_utf8(joined(cs)),
    decreases cs.len(),
{
    if cs.len() == 1 {
        assert(valid_utf8(cs[0]));
    } else if cs.len() > 1 {
        let front = cs.drop_last();
        assert(all_valid(front)) by {
            assert forall|i: int| 0 <= i < front.len() implies valid_utf8(#[trigger] front[i]) by {
                assert(valid_utf8(cs[i]));
            }
        }
        lemma_joined_valid(front);
        text::lemma_ascii_valid(seq![SLASH]);
        valid_utf8_concat(joined(front), seq![SLASH]);
        assert(joined(front).push(SLASH) =~= joined(front) + seq![SLASH]);
        assert(valid_utf8(cs[cs.len() - 1]));
        valid_utf8_concat(joined(front).push(SLASH), cs.last());
    }
}

/// Cleaning keeps UTF-8 valid.
pub proof fn lemma_cleaned_valid(p: Seq<u8>)
    requires
        valid_utf8(p),
    ensures
        valid_utf8(cleaned(p)),
{
    let cs = resolved(rooted(p), components(p));
    lemma_components_valid(p);
    lemma_resolved_valid(rooted(p), components(p));
    lemma_joined_valid(cs);
    text::lemma_ascii_valid(seq![SLASH]);
    text::lemma_ascii_valid(dot());
    valid_utf8_concat(seq![SLASH], joined(cs));
}

/// Joining keeps UTF-8 valid.
pub proof fn lemma_joined_path_valid(root: Seq<u8>, req: Seq<u8>)
    requires
        valid_utf8(root),
        valid_utf8(req),
    ensures
        valid_utf8(joined_path(root, req)),
{
    let slash = seq![SLASH];
    let r = effective_root(root);
    text::lemma_ascii_valid(slash);
    text::lemma_ascii_valid(dot());
    valid_utf8_concat(slash, req);
    lemma_cleaned_valid(slash + req);
    valid_utf8_concat(r, slash);
    assert(r.push(SLASH) =~= r + slash);
    valid_utf8_concat(r.push(SLASH), cleaned(slash + req));
    let below = cleaned(r.push(SLASH) + cleaned(slash + req));
    lemma_cleaned_valid(r.push(SLASH) + cleaned(slash + req));
    valid_utf8_concat(below, slash);
    assert(below.push(SLASH) =~= below + slash);
}

fn is_dot(c: &[u8]) -> (r: bool)
    ensures
        r == (c@ == dot()),
{
    if c.len() == 1 && c[0] == DOT {
        assert(c@ =~= dot());
        true
    } else {
        false
    }
}

fn is_dot_dot(c: &[u8]) -> (r: bool)
    ensures
        r == (c@ == dot_dot()),
{
    if c.len() == 2 && c[0] == DOT && c[1] == DOT {
        assert(c@ =~= dot_dot());
        true
    } else {
        false
    }
}

/// Takes one more component into what is kept.
fn keep(is_rooted: bool, kept: &mut Vec<Vec<u8>>, c: Vec<u8>)
    ensures
        text::views(final(kept)@) == step(is_rooted, text::views(old(kept)@), c@),
{
    if is_dot(c.as_slice()) {
        return;
    }
    if is_dot_dot(c.as_slice()) {
        let n: usize = kept.len();
        if n > 0 && !is_dot_dot(kept[n - 1].as_slice()) {
            kept.pop();
            assert(text::views(kept@) =~= text::views(old(kept)@).drop_last());
            return;
        }
        if is_rooted {
            return;
        }
    }
    kept.push(c);
    assert(text::views(kept@) =~= text::views(old(kept)@).push(c@));
}

/// The components of `path`, resolved.
fn resolve(is_rooted: bool, path: &[u8]) -> (kept: Vec<Vec<u8>>)
    ensures
        text::views(kept@) == resolved(is_rooted, components(path@)),
{
    let mut kept: Vec<Vec<u8>> = Vec::new();
    let mut r: usize = 0;
    let ghost mut done: Seq<Seq<u8>> = seq![];
    proof {
        assert(text::views(kept@) =~= resolved(is_rooted, done));
        assert(path@.skip(0) =~= path@);
        assert(done + components(path@) =~= components(path@));
    }
    while r < path.len()
        invariant
            r <= path@.len(),
            components(path@) == done + components(path@.skip(r as int)),
            text::views(kept@) == resolved(is_rooted, done),
        decreases path@.len() - r,
    {
        let ghost rest = path@.skip(r as int);
        if path[r] == SLASH {
            assert(rest.skip(1) =~= path@.skip(r + 1));
            r = r + 1;
        } else {
            let from: usize = r;
            proof {
                assert(rest.skip(0) =~= rest);
            }
            while r < path.len() && path[r] != SLASH
                invariant
                    from <= r <= path@.len(),
                    rest == path@.skip(from as int),
                    segment_len(rest) == (r - from) + segment_len(rest.skip(r - from)),
                decreases path@.len() - r,
            {
                assert(rest.skip(r - from)[0] == path@[r as int]);
                assert(rest.skip(r - from).skip(1) =~= rest.skip(r + 1 - from));
                r = r + 1;
            }
            proof {
                if r < path@.len() {
                    assert(rest.skip(r - from)[0] == path@[r as int]);
                }
                assert(segment_len(rest) == r - from);
            }
            let c = text::copy_range(path, from, r);
            proof {
                assert(rest[0] == path@[from as int]);
                lemma_segment_len(rest);
                assert(c@ =~= rest.take(r - from));
                assert(rest.skip(r - from) =~= path@.skip(r as int));
                assert(done + (seq![c@] + components(path@.skip(r as int))) =~= done.push(c@)
                    + components(path@.skip(r as int)));
                assert(done.push(c@).drop_last() =~= done);
                done = done.push(c@);
            }
            keep(is_rooted, &mut kept, c);
        }
    }
    proof {
        assert(path@.skip(r as int) =~= seq![]);
        assert(done + components(Seq::<u8>::empty()) =~= done);
    }
    kept
}

/// The components with one slash between neighbours.
fn join(cs: &Vec<Vec<u8>>) -> (out: Vec<u8>)
    ensures
        out@ == joined(text::views(cs@)),
{
    let mut out: Vec<u8> = Vec::new();
    let mut i: usize = 0;
    let ghost all = text::views(cs@);
    proof {
        assert(out@ =~= joined(all.take(0)));
    }
    while i < cs.len()
        invariant
            i <= cs@.len(),
            all == text::views(cs@),
            out@ == joined(all.take(i as int)),
        decreases cs@.len() - i,
    {
        if i > 0 {
            out.push(SLASH);
        }
        text::append(&mut out, cs[i].as_slice());
        proof {
            let next = all.take(i + 1);
            assert(next.drop_last() =~= all.take(i as int));
            assert(next.last() == cs@[i as int]@);
            if i == 0 {
                assert(out@ =~= next[0]);
            } else {
                assert(out@ =~= joined(next));
            }
        }
        i = i + 1;
    }
    assert(all.take(i as int) =~= all);
    out
}

/// The shortest path lexically equal to `path`: repeated slashes, `.` and every `..` that has a
/// component to take back are gone, and a rooted path drops the `..` at its front. The empty
/// path is `.`.
pub fn clean_path_bytes(path: &[u8]) -> (r: Vec<u8>)
    ensures
        r@ == cleaned(path@),
{
    let is_rooted = path.len() > 0 && path[0] == SLASH;
    let kept = resolve(is_rooted, path);
    if is_rooted {
        let mut out: Vec<u8> = Vec::new();
        out.push(SLASH);
        let rest = join(&kept);
        text::append(&mut out, rest.as_slice());
        assert(out@ =~= cleaned(path@));
        out
    } else if kept.len() == 0 {
        let mut out: Vec<u8> = Vec::new();
        out.push(DOT);
        assert(out@ =~= cleaned(path@));
        out
    } else {
        join(&kept)
    }
}

/// [`clean_path_bytes`] on a string.
pub fn clean_path(path: &str) -> (r: String)
    ensures
        encode_utf8(r@) == cleaned(encode_utf8(path@)),
{
    proof {
        encode_utf8_valid_utf8(path@);
        lemma_cleaned_valid(encode_utf8(path@));
    }
    text::to_string(clean_path_bytes(path.as_bytes()))
}

/// The request path below the document root, which no `..` in the request path can leave. An
/// empty root is `.`; a trailing slash of the request path stays, unless it is the whole of it.
pub fn sanitized_path_join_bytes(root: &[u8], req_path: &[u8]) -> (r: Vec<u8>)
    ensures
        r@ == joined_path(root@, req_path@),
{
    let mut inner: Vec<u8> = Vec::new();
    inner.push(SLASH);
    text::append(&mut inner, req_path);
    assert(inner@ =~= seq![SLASH] + req_path@);
    let cleaned_req = clean_path_bytes(inner.as_slice());

    let mut whole: Vec<u8> = Vec::new();
    if root.len() == 0 {
        whole.push(DOT);
    } else {
        text::append(&mut whole, root);
    }
    assert(whole@ =~= effective_root(root@));
    whole.push(SLASH);
    text::append(&mut whole, cleaned_req.as_slice());
    let mut below = clean_path_bytes(whole.as_slice());
    if req_path.len() > 1 && req_path[req_path.len() - 1] == SLASH {
        below.push(SLASH);
    }
    below
}

/// [`sanitized_path_join_bytes`] on strings.
pub fn sanitized_path_join(root: &str, req_path: &str) -> (r: String)
    ensures
        encode_utf8(r@) == joined_path(encode_utf8(root@), encode_utf8(req_path@)),
{
    proof {
        encode_utf8_valid_utf8(root@);
        encode_utf8_valid_utf8(req_path@);
        lemma_joined_path_valid(encode_utf8(root@), encode_utf8(req_path@));
    }
    text::to_string(sanitized_path_join_bytes(root.as_bytes(), req_path.as_bytes()))
}

/// What follows is resolved by what has been kept alone.
proof fn lemma_resolved_by_kept(is_rooted: bool, a: Seq<Seq<u8>>, b: Seq<Seq<u8>>, c: Seq<Seq<u8>>)
    requires
        resolved(is_rooted, a) == resolved(is_rooted, b),
    ensures
        resolved(is_rooted, a + c) == resolved(is_rooted, b + c),
    decreases c.len(),
{
    if c.len() == 0 {
        assert(a + c =~= a);
        assert(b + c =~= b);
    } else {
        lemma_resolved_by_kept(is_rooted, a, b, c.drop_last());
        assert((a + c).drop_last() =~= a + c.drop_last());
        assert((b + c).drop_last() =~= b + c.drop_last());
        assert((a + c).last() == c.last());
        assert((b + c).last() == c.last());
    }
}

/// Cleaning does not change where a path leads: a second slash and `/.` lead nowhere, a name
/// followed by `..` leads back, and above the root there is nothing.
pub proof fn lemma_detours_lead_back(a: Seq<u8>, name: Seq<u8>, b: Seq<u8>)
    requires
        a.len() > 0,
        name.len() > 0,
        !name.contains(0x2fu8),
        name != seq![0x2eu8],
        name != seq![0x2eu8, 0x2eu8],
    ensures
        cleaned(a + seq![0x2fu8, 0x2fu8] + b) == cleaned(a + seq![0x2fu8] + b),
        cleaned(a + seq![0x2fu8, 0x2eu8, 0x2fu8] + b) == cleaned(a + seq![0x2fu8] + b),
        cleaned(a + seq![0x2fu8] + name + seq![0x2fu8, 0x2eu8, 0x2eu8, 0x2fu8] + b) == cleaned(
            a + seq![0x2fu8] + b,
        ),
        cleaned(seq![0x2fu8, 0x2eu8, 0x2eu8, 0x2fu8] + b) == cleaned(seq![0x2fu8] + b),
{
    let none = Seq::<Seq<u8>>::empty();
    let empty = Seq::<u8>::empty();
    let direct = a + seq![0x2fu8] + b;
    let is_rooted = rooted(a);
    assert(direct =~= a.push(SLASH) + b);
    lemma_components_append(a, b);
    assert(direct[0] == a[0]);
    let ca = components(a);
    let cb = components(b);

    let twice = a + seq![0x2fu8, 0x2fu8] + b;
    assert(twice =~= a.push(SLASH) + (empty.push(SLASH) + b));
    lemma_components_append(a, empty.push(SLASH) + b);
    lemma_components_append(empty, b);
    assert(components(empty) =~= none);
    assert(none + cb =~= cb);
    assert(twice[0] == a[0]);

    let d = dot();
    assert(is_component(d));
    let dotted = a + seq![0x2fu8, 0x2eu8, 0x2fu8] + b;
    assert(dotted =~= a.push(SLASH) + (d.push(SLASH) + b));
    lemma_components_append(a, d.push(SLASH) + b);
    lemma_components_append(d, b);
    lemma_components_of_segment(d, empty);
    assert(d + empty =~= d);
    assert(components(d) =~= seq![d]);
    assert(dotted[0] == a[0]);
    assert(ca + (seq![d] + cb) =~= (ca + seq![d]) + cb);
    assert((ca + seq![d]).drop_last() =~= ca);
    assert((ca + seq![d]).last() == d);
    lemma_resolved_by_kept(is_rooted, ca + seq![d], ca, cb);

    let dd = dot_dot();
    assert(is_component(dd));
    assert(is_component(name));
    let back = a + seq![0x2fu8] + name + seq![0x2fu8, 0x2eu8, 0x2eu8, 0x2fu8] + b;
    assert(back =~= a.push(SLASH) + (name.push(SLASH) + (dd.push(SLASH) + b)));
    lemma_components_append(a, name.push(SLASH) + (dd.push(SLASH) + b));
    lemma_components_append(name, dd.push(SLASH) + b);
    lemma_components_append(dd, b);
    lemma_components_of_segment(dd, empty);
    assert(dd + empty =~= dd);
    assert(components(dd) =~= seq![dd]);
    lemma_components_of_segment(name, empty);
    assert(name + empty =~= name);
    assert(components(name) =~= seq![name]);
    assert(back[0] == a[0]);
    let there = ca + seq![name];
    let again = there + seq![dd];
    assert(there.drop_last() =~= ca);
    assert(there.last() == name);
    assert(again.drop_last() =~= there);
    assert(again.last() == dd);
    assert(resolved(is_rooted, there) == resolved(is_rooted, ca).push(name));
    assert(resolved(is_rooted, there).drop_last() =~= resolved(is_rooted, ca));
    assert(resolved(is_rooted, again) == resolved(is_rooted, ca));
    assert(ca + (seq![name] + (seq![dd] + cb)) =~= again + cb);
    lemma_resolved_by_kept(is_rooted, again, ca, cb);

    let above = seq![0x2fu8, 0x2eu8, 0x2eu8, 0x2fu8] + b;
    let top = seq![0x2fu8] + b;
    assert(top.skip(1) =~= b);
    assert(above.skip(1) =~= dd.push(SLASH) + b);
    assert(seq![dd].drop_last() =~= none);
    assert(resolved(true, none) =~= none);
    assert(resolved(true, seq![dd]) =~= none);
    lemma_resolved_by_kept(true, seq![dd], none, cb);
}

/// A path without detours is written out name by name, and a cleaned path has single slashes
/// between its names and none behind the last.
pub proof fn lemma_clean_keeps_plain_paths(p: Seq<u8>)
    requires
        components(p).len() > 0,
        forall|i: int|
            0 <= i < components(p).len() ==> #[trigger] components(p)[i] != seq![0x2eu8]
                && components(p)[i] != seq![0x2eu8, 0x2eu8],
    ensures
        components(cleaned(p)) == components(p),
        cleaned(p).len() > 0 && cleaned(p).last() != 0x2f,
        (cleaned(p)[0] == 0x2f) == (p.len() > 0 && p[0] == 0x2f),
        cleaned(p) == (if p[0] == 0x2f {
            seq![0x2fu8]
        } else {
            seq![]
        }) + text::joined_with(components(p), seq![0x2fu8]),
{
    let cs = components(p);
    lemma_components_are_components(p);
    assert forall|i: int| 0 <= i < cs.len() implies #[trigger] cs[i] != dot() && cs[i]
        != dot_dot() by {
        assert(cs[i] != seq![0x2eu8]);
    }
    let none = Seq::<Seq<u8>>::empty();
    lemma_resolved_append(rooted(p), none, cs);
    assert(none + cs =~= cs);
    assert(resolved(rooted(p), none) =~= none);
    lemma_components_cleaned(p);
    lemma_joined_is_joined_with(cs);
    lemma_components_joined(cs);
    assert(is_component(cs[cs.len() - 1]));
    lemma_joined_ends(cs);
    if p.len() > 0 && p[0] == 0x2f {
        assert(cleaned(p) =~= seq![0x2fu8] + joined(cs));
    } else {
        assert(cleaned(p) =~= seq![] + joined(cs));
        assert(is_component(cs[0]));
        assert(cs[0].contains(cs[0][0]));
        assert(p.len() > 0);
    }
}

proof fn lemma_joined_ends(cs: Seq<Seq<u8>>)
    requires
        all_components(cs),
        cs.len() > 0,
    ensures
        joined(cs).len() > 0,
        joined(cs).last() != SLASH,
{
    let c = cs[cs.len() - 1];
    assert(is_component(c));
    assert(c.contains(c[c.len() - 1]));
    assert(joined(cs).last() == c.last());
}

proof fn lemma_joined_is_joined_with(cs: Seq<Seq<u8>>)
    ensures
        joined(cs) == text::joined_with(cs, seq![0x2fu8]),
    decreases cs.len(),
{
    if cs.len() > 1 {
        lemma_joined_is_joined_with(cs.drop_last());
        assert(joined(cs) =~= text::joined_with(cs, seq![0x2fu8]));
    }
}

/// A slash at the end of a request path stays, and makes no other difference. A request for
/// nothing, or for the root, is one for the document root itself.
pub proof fn lemma_trailing_slash_is_kept(root: Seq<u8>, req: Seq<u8>)
    requires
        root.len() > 0,
    ensures
        req.len() > 0 && req.last() != 0x2f ==> joined_path(root, req.push(0x2f)) == joined_path(
            root,
            req,
        ).push(0x2f),
        joined_path(root, seq![]) == cleaned(root),
        joined_path(root, seq![0x2fu8]) == cleaned(root),
        req.len() > 0 && req[0] != 0x2f ==> joined_path(root, seq![0x2fu8] + req) == joined_path(
            root,
            req,
        ),
{
    let empty = Seq::<u8>::empty();
    let none = Seq::<Seq<u8>>::empty();
    assert(components(empty) =~= none);
    let inner = seq![SLASH] + req;
    let longer = seq![SLASH] + req.push(SLASH);
    assert(longer =~= inner.push(SLASH) + empty);
    lemma_components_append(inner, empty);
    assert(components(inner) + none =~= components(inner));
    assert(components(longer) == components(inner));

    let top = seq![SLASH] + empty;
    assert(top =~= seq![SLASH]);
    assert(top.skip(1) =~= empty);
    assert(resolved(true, none) =~= none);
    assert(cleaned(top) =~= seq![SLASH]);
    let whole = root.push(SLASH) + seq![SLASH];
    lemma_components_append(root, seq![SLASH]);
    assert(seq![SLASH].skip(1) =~= empty);
    assert(components(seq![SLASH]) =~= none);
    assert(components(root) + none =~= components(root));
    assert(whole[0] == root[0]);
    let two = seq![SLASH] + seq![SLASH];
    assert(two.skip(1) =~= seq![SLASH]);
    assert(cleaned(two) =~= seq![SLASH]);
    if req.len() > 0 && req[0] != 0x2f {
        let doubled = seq![SLASH] + (seq![0x2fu8] + req);
        assert(doubled.skip(1) =~= inner);
        assert((seq![0x2fu8] + req).last() == req.last());
    }
}

/// Without a document root paths are found below the current directory.
pub proof fn lemma_no_root_is_here(req: Seq<u8>)
    ensures
        joined_path(seq![], req) == joined_path(seq![0x2eu8], req),
{
}

} // verus!
