//! Request and response headers: names without regard to case, values in the order they came.
use vstd::prelude::*;
use vstd::string::*;
use vstd::utf8::*;

use crate::text;

verus! {

/// Whether a character may stand in a header name: an RFC 9110 token character.
pub open spec fn is_token_char(c: char) -> bool {
    ||| 'a' <= c <= 'z'
    ||| 'A' <= c <= 'Z'
    ||| '0' <= c <= '9'
    ||| c == '!' || c == '#' || c == '$' || c == '%' || c == '&' || c == '\'' || c == '*'
    ||| c == '+' || c == '-' || c == '.' || c == '^' || c == '_' || c == '`' || c == '|'
    ||| c == '~'
}

pub open spec fn all_token_chars(name: Seq<char>) -> bool {
    forall|i: int| 0 <= i < name.len() ==> is_token_char(#[trigger] name[i])
}

/// The name with a capital where a word starts and small letters elsewhere; hyphens part words.
pub open spec fn capitalized(name: Seq<char>, at_start: bool) -> Seq<char>
    decreases name.len(),
{
    if name.len() == 0 {
        seq![]
    } else {
        seq![
            if at_start {
                text::upper_char(name[0])
            } else {
                text::lower_char(name[0])
            },
        ] + capitalized(name.skip(1), name[0] == '-')
    }
}

/// The form under which a header is kept: a name made of token characters is capitalized, and
/// any other name stays as it is.
pub open spec fn canonical(name: Seq<char>) -> Seq<char> {
    if all_token_chars(name) {
        capitalized(name, true)
    } else {
        name
    }
}

/// Whether a byte may stand in a header name.
pub fn is_header_field_byte(c: u8) -> (r: bool)
    ensures
        r == is_token_char(c as char),
{
    (0x61 <= c && c <= 0x7a) || (0x41 <= c && c <= 0x5a) || (0x30 <= c && c <= 0x39) || c == 0x21
        || (0x23 <= c && c <= 0x27) || c == 0x2a || c == 0x2b || c == 0x2d || c == 0x2e || c == 0x5e
        || c == 0x5f || c == 0x60 || c == 0x7c || c == 0x7e
}

fn is_token(name: &str) -> (r: bool)
    ensures
        r ==> is_ascii_chars(name@),
        r == all_token_chars(name@),
{
    if !name.is_ascii() {
        proof {
            if all_token_chars(name@) {
                assert forall|i: int| 0 <= i < name@.len() implies '\0' <= #[trigger] name@[i]
                    <= '\u{7f}' by {
                    assert(is_token_char(name@[i]));
                }
            }
        }
        return false;
    }
    let n: usize = name.unicode_len();
    let mut i: usize = 0;
    while i < n
        invariant
            n == name@.len(),
            i <= n,
            is_ascii_chars(name@),
            forall|k: int| 0 <= k < i ==> is_token_char(#[trigger] name@[k]),
        decreases n - i,
    {
        assert('\0' <= name@[i as int] <= '\u{7f}');
        if !is_header_field_byte(name.get_ascii(i)) {
            return false;
        }
        i = i + 1;
    }
    true
}

/// The form under which a header is kept.
pub fn canonical_header_name(name: &str) -> (r: String)
    ensures
        r@ == canonical(name@),
{
    if !is_token(name) {
        return name.to_owned();
    }
    let n: usize = name.unicode_len();
    let mut out = String::new();
    let mut at_start: bool = true;
    let mut i: usize = 0;
    proof {
        assert(name@.skip(0) =~= name@);
        assert(out@ + capitalized(name@, true) =~= capitalized(name@, true));
    }
    while i < n
        invariant
            n == name@.len(),
            i <= n,
            is_ascii_chars(name@),
            capitalized(name@, true) == out@ + capitalized(name@.skip(i as int), at_start),
        decreases n - i,
    {
        let ghost before = out@;
        let ghost rest = name@.skip(i as int);
        let b = name.get_ascii(i);
        assert('\0' <= name@[i as int] <= '\u{7f}');
        let cased: u8 = if at_start {
            text::to_upper(b)
        } else {
            text::to_lower(b)
        };
        out.push(cased as char);
        proof {
            assert(rest.skip(1) =~= name@.skip(i + 1));
            assert(before + (seq![cased as char] + capitalized(rest.skip(1), rest[0] == '-'))
                =~= out@ + capitalized(name@.skip(i + 1), b == 0x2d));
        }
        at_start = b == 0x2d;
        i = i + 1;
    }
    proof {
        assert(name@.skip(i as int) =~= seq![]);
        assert(out@ + capitalized(Seq::<char>::empty(), at_start) =~= out@);
    }
    out
}

proof fn lemma_capitalized(name: Seq<char>, at_start: bool)
    requires
        all_token_chars(name),
    ensures
        capitalized(name, at_start).len() == name.len(),
        all_token_chars(capitalized(name, at_start)),
        capitalized(capitalized(name, at_start), at_start) == capitalized(name, at_start),
    decreases name.len(),
{
    if name.len() > 0 {
        let rest = name.skip(1);
        assert forall|i: int| 0 <= i < rest.len() implies is_token_char(#[trigger] rest[i]) by {
            assert(is_token_char(name[i + 1]));
        }
        let next = name[0] == '-';
        lemma_capitalized(rest, next);
        let tail = capitalized(rest, next);
        let out = capitalized(name, at_start);
        assert(is_token_char(name[0]));
        assert(out.skip(1) =~= tail);
        assert((out[0] == '-') == next);
        assert forall|i: int| 0 <= i < out.len() implies is_token_char(#[trigger] out[i]) by {
            if i > 0 {
                assert(out[i] == tail[i - 1]);
            }
        }
        assert(capitalized(out, at_start) =~= out);
    }
}

/// The kept form of a kept form is itself.
pub proof fn lemma_canonical_idempotent(name: Seq<char>)
    ensures
        canonical(canonical(name)) == canonical(name),
{
    if all_token_chars(name) {
        lemma_capitalized(name, true);
    }
}

proof fn lemma_same_letter(a: char, b: char)
    requires
        text::lower_char(a) == text::lower_char(b),
    ensures
        text::upper_char(a) == text::upper_char(b),
        is_token_char(a) == is_token_char(b),
        (a == '-') == (b == '-'),
{
}

proof fn lemma_capitalized_ignores_case(a: Seq<char>, b: Seq<char>, at_start: bool)
    requires
        text::lower_chars(a) == text::lower_chars(b),
    ensures
        capitalized(a, at_start) == capitalized(b, at_start),
    decreases a.len(),
{
    assert(text::lower_chars(a).len() == a.len());
    assert(text::lower_chars(b).len() == b.len());
    if a.len() > 0 {
        assert(text::lower_chars(a)[0] == text::lower_char(a[0]));
        assert(text::lower_chars(b)[0] == text::lower_char(b[0]));
        lemma_same_letter(a[0], b[0]);
        assert(text::lower_chars(a.skip(1)) =~= text::lower_chars(a).skip(1));
        assert(text::lower_chars(b.skip(1)) =~= text::lower_chars(b).skip(1));
        lemma_capitalized_ignores_case(a.skip(1), b.skip(1), a[0] == '-');
    }
}

/// Names made of token characters that differ only in case name the same header.
pub proof fn lemma_canonical_ignores_case(a: Seq<char>, b: Seq<char>)
    requires
        all_token_chars(a),
        text::lower_chars(a) == text::lower_chars(b),
    ensures
        canonical(a) == canonical(b),
{
    assert(text::lower_chars(a).len() == a.len());
    assert(text::lower_chars(b).len() == b.len());
    assert forall|i: int| 0 <= i < b.len() implies is_token_char(#[trigger] b[i]) by {
        assert(is_token_char(a[i]));
        assert(text::lower_chars(a)[i] == text::lower_char(a[i]));
        assert(text::lower_chars(b)[i] == text::lower_char(b[i]));
        lemma_same_letter(a[i], b[i]);
    }
    lemma_capitalized_ignores_case(a, b, true);
}

/// The values kept under `name`.
pub open spec fn values_of(h: Seq<(Seq<char>, Seq<Seq<u8>>)>, name: Seq<char>) -> Option<Seq<Seq<u8>>>
    decreases h.len(),
{
    if h.len() == 0 {
        None
    } else if h[0].0 == name {
        Some(h[0].1)
    } else {
        values_of(h.skip(1), name)
    }
}

/// The headers with one more value under `name`: behind the values that it has, or as a new
/// header at the end.
pub open spec fn inserted(
    h: Seq<(Seq<char>, Seq<Seq<u8>>)>,
    name: Seq<char>,
    value: Seq<u8>,
) -> Seq<(Seq<char>, Seq<Seq<u8>>)>
    decreases h.len(),
{
    if h.len() == 0 {
        seq![(name, seq![value])]
    } else if h[0].0 == name {
        seq![(name, h[0].1.push(value))] + h.skip(1)
    } else {
        seq![h[0]] + inserted(h.skip(1), name, value)
    }
}

/// Every name is in its kept form and stands once, with at least one value.
pub open spec fn well_formed(h: Seq<(Seq<char>, Seq<Seq<u8>>)>) -> bool {
    &&& forall|i: int| 0 <= i < h.len() ==> canonical(#[trigger] h[i].0) == h[i].0 && h[i].1.len() > 0
    &&& forall|i: int, j: int| 0 <= i < j < h.len() ==> #[trigger] h[i].0 != #[trigger] h[j].0
}

/// A value that was inserted is the last one of its header, and the values before it are those
/// that the header had.
pub proof fn lemma_insert_then_lookup(
    h: Seq<(Seq<char>, Seq<Seq<u8>>)>,
    name: Seq<char>,
    value: Seq<u8>,
)
    ensures
        values_of(inserted(h, name, value), name) == Some(
            match values_of(h, name) {
                Some(values) => values.push(value),
                None => seq![value],
            },
        ),
    decreases h.len(),
{
    if h.len() > 0 {
        if h[0].0 != name {
            lemma_insert_then_lookup(h.skip(1), name, value);
            assert(inserted(h, name, value).skip(1) =~= inserted(h.skip(1), name, value));
        }
    }
}

/// An insertion changes no other header.
pub proof fn lemma_insert_keeps_others(
    h: Seq<(Seq<char>, Seq<Seq<u8>>)>,
    name: Seq<char>,
    value: Seq<u8>,
    other: Seq<char>,
)
    requires
        other != name,
    ensures
        values_of(inserted(h, name, value), other) == values_of(h, other),
    decreases h.len(),
{
    let out = inserted(h, name, value);
    if h.len() == 0 {
        assert(out.skip(1) =~= seq![]);
        assert(values_of(out.skip(1), other) is None);
    } else if h[0].0 == name {
        assert(out.skip(1) =~= h.skip(1));
    } else {
        lemma_insert_keeps_others(h.skip(1), name, value, other);
        assert(out.skip(1) =~= inserted(h.skip(1), name, value));
    }
}

/// What an insertion does to the names: they stay, in order, and a new name comes last.
pub proof fn lemma_inserted_names(h: Seq<(Seq<char>, Seq<Seq<u8>>)>, name: Seq<char>, value: Seq<u8>)
    ensures
        ({
            let out = inserted(h, name, value);
            &&& out.len() == h.len() || out.len() == h.len() + 1
            &&& forall|i: int| 0 <= i < h.len() ==> #[trigger] out[i].0 == h[i].0
            &&& forall|i: int| 0 <= i < h.len() ==> h[i].1.len() <= #[trigger] out[i].1.len()
            &&& out.len() == h.len() + 1 ==> out[h.len() as int] == (name, seq![value]) && forall|i: int|
                0 <= i < h.len() ==> #[trigger] h[i].0 != name
        }),
    decreases h.len(),
{
    let out = inserted(h, name, value);
    if h.len() > 0 {
        if h[0].0 == name {
            assert(out.len() == h.len());
        } else {
            let rest = h.skip(1);
            lemma_inserted_names(rest, name, value);
            let tail = inserted(rest, name, value);
            assert forall|i: int| 0 <= i < h.len() implies #[trigger] out[i].0 == h[i].0 by {
                if i > 0 {
                    assert(out[i] == tail[i - 1]);
                    assert(tail[i - 1].0 == rest[i - 1].0);
                }
            }
            assert forall|i: int| 0 <= i < h.len() implies h[i].1.len() <= #[trigger] out[i].1.len() by {
                if i > 0 {
                    assert(out[i] == tail[i - 1]);
                    assert(rest[i - 1].1.len() <= tail[i - 1].1.len());
                }
            }
            if out.len() == h.len() + 1 {
                assert(out[h.len() as int] == tail[rest.len() as int]);
                assert forall|i: int| 0 <= i < h.len() implies #[trigger] h[i].0 != name by {
                    if i > 0 {
                        assert(rest[i - 1].0 != name);
                    }
                }
            }
        }
    }
}

/// Insertion under a kept form keeps headers well formed.
pub proof fn lemma_insert_well_formed(
    h: Seq<(Seq<char>, Seq<Seq<u8>>)>,
    name: Seq<char>,
    value: Seq<u8>,
)
    requires
        well_formed(h),
        canonical(name) == name,
    ensures
        well_formed(inserted(h, name, value)),
{
    let out = inserted(h, name, value);
    lemma_inserted_names(h, name, value);
    assert forall|i: int| 0 <= i < out.len() implies canonical(#[trigger] out[i].0) == out[i].0
        && out[i].1.len() > 0 by {
        if i < h.len() {
            assert(canonical(h[i].0) == h[i].0);
        }
    }
    assert forall|i: int, j: int| 0 <= i < j < out.len() implies #[trigger] out[i].0
        != #[trigger] out[j].0 by {
        if j < h.len() {
            assert(h[i].0 != h[j].0);
        } else {
            assert(h[i].0 != name);
        }
    }
}

/// Headers by name. Each name has one entry, in the order of the first insertion, with all of
/// its values in the order they came. Values are bytes.
#[derive(Debug)]
pub struct Headers {
    entries: Vec<(String, Vec<Vec<u8>>)>,
}

impl View for Headers {
    type V = Seq<(Seq<char>, Seq<Seq<u8>>)>;

    closed spec fn view(&self) -> Seq<(Seq<char>, Seq<Seq<u8>>)> {
        self.entries@.map_values(|e: (String, Vec<Vec<u8>>)| (e.0@, text::views(e.1@)))
    }
}

impl Default for Headers {
    fn default() -> (h: Self)
        ensures
            h@ == Seq::<(Seq<char>, Seq<Seq<u8>>)>::empty(),
    {
        let h = Headers { entries: Vec::new() };
        assert(h@ =~= seq![]);
        h
    }
}

impl Clone for Headers {
    fn clone(&self) -> (r: Self)
        ensures
            r@ == self@,
    {
        proof {
            use_type_invariant(self);
        }
        let mut entries: Vec<(String, Vec<Vec<u8>>)> = Vec::new();
        let mut i: usize = 0;
        let ghost all = self@;
        while i < self.entries.len()
            invariant
                i <= self.entries@.len(),
                all == self@,
                entries@.len() == i,
                forall|k: int|
                    0 <= k < i ==> (#[trigger] entries@[k]).0@ == all[k].0 && text::views(
                        entries@[k].1@,
                    ) == all[k].1,
            decreases self.entries@.len() - i,
        {
            let name = self.entries[i].0.clone();
            let values = text::copy_values(self.entries[i].1.as_slice());
            entries.push((name, values));
            i = i + 1;
        }
        assert(Headers { entries }@ =~= all);
        Headers { entries }
    }
}

impl Headers {
    #[verifier::type_invariant]
    spec fn inv(&self) -> bool {
        well_formed(self@)
    }

    /// The position of a kept name.
    fn position(entries: &Vec<(String, Vec<Vec<u8>>)>, name: &String) -> (r: Option<usize>)
        ensures
            match r {
                Some(i) => i < entries@.len() && entries@[i as int].0@ == name@ && forall|k: int|
                    0 <= k < i ==> #[trigger] entries@[k].0@ != name@,
                None => forall|k: int|
                    0 <= k < entries@.len() ==> #[trigger] entries@[k].0@ != name@,
            },
    {
        let mut i: usize = 0;
        while i < entries.len()
            invariant
                i <= entries@.len(),
                forall|k: int| 0 <= k < i ==> #[trigger] entries@[k].0@ != name@,
            decreases entries@.len() - i,
        {
            if text::same_str(entries[i].0.as_str(), name.as_str()) {
                return Some(i);
            }
            i = i + 1;
        }
        None
    }

    /// Adds a value under a name, behind the values that the name has.
    pub fn insert(&mut self, name: &str, value: Vec<u8>)
        ensures
            final(self)@ == inserted(old(self)@, canonical(name@), value@),
            well_formed(final(self)@),
    {
        proof {
            use_type_invariant(&*self);
            lemma_canonical_idempotent(name@);
            lemma_insert_well_formed(self@, canonical(name@), value@);
        }
        let canon = canonical_header_name(name);
        let mut entries: Vec<(String, Vec<Vec<u8>>)> = Vec::new();
        proof {
            assert(Headers { entries }@ =~= seq![]);
        }
        std::mem::swap(&mut entries, &mut self.entries);
        let ghost before = entries@;
        match Self::position(&entries, &canon) {
            Some(i) => {
                let ghost had = text::views(entries@[i as int].1@);
                entries[i].1.push(value);
                proof {
                    assert(text::views(entries@[i as int].1@) =~= had.push(value@));
                    lemma_inserted_at(old(self)@, canon@, value@, i as int);
                    assert(Headers { entries }@ =~= old(self)@.update(
                        i as int,
                        (canon@, had.push(value@)),
                    ));
                }
            },
            None => {
                let mut values: Vec<Vec<u8>> = Vec::new();
                values.push(value);
                let ghost kept = values@;
                entries.push((canon, values));
                proof {
                    assert(text::views(kept) =~= seq![value@]);
                    lemma_inserted_last(old(self)@, canon@, value@);
                    assert(Headers { entries }@ =~= old(self)@.push((canon@, seq![value@])));
                }
            },
        }
        self.entries = entries;
    }

    /// Every value under a name, in the order they came, or nothing where the name has none.
    pub fn get_all(&self, name: &str) -> (r: Option<&[Vec<u8>]>)
        ensures
            match r {
                Some(values) => values_of(self@, canonical(name@)) == Some(text::views(values@)),
                None => values_of(self@, canonical(name@)) is None,
            },
    {
        let canon = canonical_header_name(name);
        match Self::position(&self.entries, &canon) {
            Some(i) => {
                proof {
                    lemma_values_at(self@, canon@, i as int);
                }
                Some(self.entries[i].1.as_slice())
            },
            None => {
                proof {
                    lemma_values_none(self@, canon@);
                }
                None
            },
        }
    }

    /// The first value under a name, never a join of several.
    pub fn get_first(&self, name: &str) -> (r: Option<&[u8]>)
        ensures
            match r {
                Some(value) => first_value(self@, name@) == Some(value@),
                None => first_value(self@, name@) is None,
            },
    {
        match self.get_all(name) {
            Some(values) => {
                if values.len() > 0 {
                    assert(text::views(values@)[0] == values@[0]@);
                    Some(values[0].as_slice())
                } else {
                    None
                }
            },
            None => None,
        }
    }

    /// How many names there are.
    pub fn name_count(&self) -> (r: usize)
        ensures
            r == self@.len(),
    {
        self.entries.len()
    }

    /// Name number `i`, in the order of first insertion.
    pub fn name_at(&self, i: usize) -> (r: &str)
        requires
            i < self@.len(),
        ensures
            r@ == self@[i as int].0,
    {
        self.entries[i].0.as_str()
    }

    /// The values of name number `i`.
    pub fn values_at(&self, i: usize) -> (r: &[Vec<u8>])
        requires
            i < self@.len(),
        ensures
            text::views(r@) == self@[i as int].1,
    {
        self.entries[i].1.as_slice()
    }

    /// Every name with its values, in the order of first insertion.
    pub fn iter(&self) -> (r: Vec<(&str, &[Vec<u8>])>)
        ensures
            r@.len() == self@.len(),
            forall|i: int|
                0 <= i < r@.len() ==> (#[trigger] r@[i]).0@ == self@[i].0 && text::views(r@[i].1@)
                    == self@[i].1,
    {
        let mut r: Vec<(&str, &[Vec<u8>])> = Vec::new();
        let mut i: usize = 0;
        while i < self.entries.len()
            invariant
                i <= self.entries@.len(),
                self@.len() == self.entries@.len(),
                r@.len() == i,
                forall|k: int|
                    0 <= k < i ==> (#[trigger] r@[k]).0@ == self@[k].0 && text::views(r@[k].1@)
                        == self@[k].1,
            decreases self.entries@.len() - i,
        {
            r.push((self.name_at(i), self.values_at(i)));
            i = i + 1;
        }
        r
    }

    /// Removes every header.
    pub fn clear(&mut self)
        ensures
            final(self)@ == Seq::<(Seq<char>, Seq<Seq<u8>>)>::empty(),
    {
        let entries: Vec<(String, Vec<Vec<u8>>)> = Vec::new();
        proof {
            assert(Headers { entries }@ =~= seq![]);
        }
        self.entries = entries;
    }
}

/// The first value kept under a name.
pub open spec fn first_value(h: Seq<(Seq<char>, Seq<Seq<u8>>)>, name: Seq<char>) -> Option<Seq<u8>> {
    match values_of(h, canonical(name)) {
        Some(values) => if values.len() > 0 {
            Some(values[0])
        } else {
            None
        },
        None => None,
    }
}

proof fn lemma_inserted_at(
    h: Seq<(Seq<char>, Seq<Seq<u8>>)>,
    name: Seq<char>,
    value: Seq<u8>,
    i: int,
)
    requires
        0 <= i < h.len(),
        h[i].0 == name,
        forall|k: int| 0 <= k < i ==> #[trigger] h[k].0 != name,
    ensures
        inserted(h, name, value) == h.update(i, (name, h[i].1.push(value))),
    decreases h.len(),
{
    if i == 0 {
        assert(inserted(h, name, value) =~= h.update(i, (name, h[i].1.push(value))));
    } else {
        let rest = h.skip(1);
        assert forall|k: int| 0 <= k < i - 1 implies #[trigger] rest[k].0 != name by {
            assert(h[k + 1].0 != name);
        }
        assert(h[0].0 != name);
        lemma_inserted_at(rest, name, value, i - 1);
        assert(inserted(h, name, value) =~= h.update(i, (name, h[i].1.push(value))));
    }
}

proof fn lemma_inserted_last(h: Seq<(Seq<char>, Seq<Seq<u8>>)>, name: Seq<char>, value: Seq<u8>)
    requires
        forall|k: int| 0 <= k < h.len() ==> #[trigger] h[k].0 != name,
    ensures
        inserted(h, name, value) == h.push((name, seq![value])),
    decreases h.len(),
{
    if h.len() > 0 {
        let rest = h.skip(1);
        assert forall|k: int| 0 <= k < rest.len() implies #[trigger] rest[k].0 != name by {
            assert(h[k + 1].0 != name);
        }
        assert(h[0].0 != name);
        lemma_inserted_last(rest, name, value);
    }
    assert(inserted(h, name, value) =~= h.push((name, seq![value])));
}

proof fn lemma_values_at(h: Seq<(Seq<char>, Seq<Seq<u8>>)>, name: Seq<char>, i: int)
    requires
        0 <= i < h.len(),
        h[i].0 == name,
        forall|k: int| 0 <= k < i ==> #[trigger] h[k].0 != name,
    ensures
        values_of(h, name) == Some(h[i].1),
    decreases h.len(),
{
    if i > 0 {
        let rest = h.skip(1);
        assert forall|k: int| 0 <= k < i - 1 implies #[trigger] rest[k].0 != name by {
            assert(h[k + 1].0 != name);
        }
        assert(h[0].0 != name);
        lemma_values_at(rest, name, i - 1);
    }
}

proof fn lemma_values_none(h: Seq<(Seq<char>, Seq<Seq<u8>>)>, name: Seq<char>)
    requires
        forall|k: int| 0 <= k < h.len() ==> #[trigger] h[k].0 != name,
    ensures
        values_of(h, name) is None,
    decreases h.len(),
{
    if h.len() > 0 {
        let rest = h.skip(1);
        assert forall|k: int| 0 <= k < rest.len() implies #[trigger] rest[k].0 != name by {
            assert(h[k + 1].0 != name);
        }
        assert(h[0].0 != name);
        lemma_values_none(rest, name);
    }
}

/// The characters of a header name are the visible ASCII characters but the delimiters.
pub proof fn lemma_token_characters(c: char)
    ensures
        is_token_char(c) == (0x21 <= c as u32 <= 0x7e && c != '"' && c != '(' && c != ')' && c != ','
            && c != '/' && c != ':' && c != ';' && c != '<' && c != '=' && c != '>' && c != '?'
            && c != '@' && c != '[' && c != '\\' && c != ']' && c != '{' && c != '}'),
{
}

/// A name is kept letter by letter: capital at its start and behind a hyphen, small elsewhere,
/// and what is no letter stays. A name that is none is kept as it is.
pub proof fn lemma_canonical_letters(name: Seq<char>)
    ensures
        canonical(name).len() == name.len(),
        (forall|i: int| 0 <= i < name.len() ==> is_token_char(#[trigger] name[i])) ==> forall|i: int|
            0 <= i < name.len() ==> (#[trigger] canonical(name)[i]) as u32 == (if (i == 0 || name[i
                - 1] == '-') && 'a' <= name[i] <= 'z' {
                name[i] as u32 - 0x20
            } else if i > 0 && name[i - 1] != '-' && 'A' <= name[i] <= 'Z' {
                name[i] as u32 + 0x20
            } else {
                name[i] as u32 as int
            }),
        !(forall|i: int| 0 <= i < name.len() ==> is_token_char(#[trigger] name[i])) ==> canonical(
            name,
        ) == name,
{
    if all_token_chars(name) {
        lemma_capitalized_letters(name, true);
    }
}

proof fn lemma_capitalized_letters(name: Seq<char>, at_start: bool)
    ensures
        capitalized(name, at_start).len() == name.len(),
        forall|i: int|
            0 <= i < name.len() ==> (#[trigger] capitalized(name, at_start)[i]) as u32 == (if (if i
                == 0 {
                at_start
            } else {
                name[i - 1] == '-'
            }) {
                if 'a' <= name[i] <= 'z' {
                    name[i] as u32 - 0x20
                } else {
                    name[i] as u32 as int
                }
            } else {
                if 'A' <= name[i] <= 'Z' {
                    name[i] as u32 + 0x20
                } else {
                    name[i] as u32 as int
                }
            }),
    decreases name.len(),
{
    if name.len() > 0 {
        let rest = name.skip(1);
        let next = name[0] == '-';
        lemma_capitalized_letters(rest, next);
        let out = capitalized(name, at_start);
        let tail = capitalized(rest, next);
        assert(out.len() == 1 + tail.len());
        assert forall|i: int| 0 <= i < name.len() implies (#[trigger] out[i]) as u32 == (if (if i
            == 0 {
            at_start
        } else {
            name[i - 1] == '-'
        }) {
            if 'a' <= name[i] <= 'z' {
                name[i] as u32 - 0x20
            } else {
                name[i] as u32 as int
            }
        } else {
            if 'A' <= name[i] <= 'Z' {
                name[i] as u32 + 0x20
            } else {
                name[i] as u32 as int
            }
        }) by {
            if i > 0 {
                assert(out[i] == tail[i - 1]);
                assert(rest[i - 1] == name[i]);
                if i > 1 {
                    assert(rest[i - 2] == name[i - 1]);
                }
            }
        }
    }
}

/// The first value of a header is the one that came first under its name, however the name is
/// written, and what comes later under it or under another name changes nothing about it.
pub proof fn lemma_first_value_stays(
    h: Seq<(Seq<char>, Seq<Seq<u8>>)>,
    name: Seq<char>,
    other: Seq<char>,
    value: Seq<u8>,
)
    requires
        well_formed(h),
    ensures
        first_value(inserted(h, canonical(name), value), name) == (match first_value(h, name) {
            Some(first) => Some(first),
            None => Some(value),
        }),
        canonical(other) != canonical(name) ==> first_value(
            inserted(h, canonical(other), value),
            name,
        ) == first_value(h, name),
        first_value(Seq::<(Seq<char>, Seq<Seq<u8>>)>::empty(), name) is None,
{
    let key = canonical(name);
    lemma_insert_then_lookup(h, key, value);
    if canonical(other) != key {
        lemma_insert_keeps_others(h, canonical(other), value, key);
    }
    if values_of(h, key) is Some {
        lemma_name_has_values(h, key);
    }
}

/// A name that is there has a value.
pub proof fn lemma_name_has_values(h: Seq<(Seq<char>, Seq<Seq<u8>>)>, name: Seq<char>)
    requires
        well_formed(h),
        values_of(h, name) is Some,
    ensures
        values_of(h, name)->0.len() > 0,
    decreases h.len(),
{
    if h.len() > 0 {
        assert(canonical(h[0].0) == h[0].0 && h[0].1.len() > 0);
        if h[0].0 != name {
            let rest = h.skip(1);
            assert forall|i: int| 0 <= i < rest.len() implies canonical(#[trigger] rest[i].0)
                == rest[i].0 && rest[i].1.len() > 0 by {
                assert(canonical(h[i + 1].0) == h[i + 1].0);
            }
            assert forall|i: int, j: int| 0 <= i < j < rest.len() implies #[trigger] rest[i].0
                != #[trigger] rest[j].0 by {
                assert(h[i + 1].0 != h[j + 1].0);
            }
            lemma_name_has_values(rest, name);
        }
    }
}

/// The values of a name are those that stand beside it, where it stands once.
pub proof fn lemma_values_stand_beside_the_name(h: Seq<(Seq<char>, Seq<Seq<u8>>)>, i: int)
    requires
        well_formed(h),
        0 <= i < h.len(),
    ensures
        values_of(h, h[i].0) == Some(h[i].1),
        first_value(h, h[i].0) == Some(h[i].1[0]),
{
    assert forall|k: int| 0 <= k < i implies #[trigger] h[k].0 != h[i].0 by {}
    lemma_values_at(h, h[i].0, i);
    assert(canonical(h[i].0) == h[i].0 && h[i].1.len() > 0);
}

/// What was put under a name is found under it, however the name is written: the first value
/// stays the first, all values are there in order, and no other name is affected.
pub proof fn lemma_headers_are_found(
    h: &mut Headers,
    name: &str,
    value: Vec<u8>,
    after: &Headers,
    same: &str,
    found: Option<&[u8]>,
    all: Option<&[Vec<u8>]>,
)
    requires
        well_formed(old(h)@),
        call_ensures(Headers::insert, (h, name, value), ()),
        after@ == final(h)@,
        all_token_chars(name@),
        text::lower_chars(name@) == text::lower_chars(same@),
        call_ensures(Headers::get_first, (after, same), found),
        call_ensures(Headers::get_all, (after, same), all),
    ensures
        found matches Some(bytes) && bytes@ == (match first_value(old(h)@, name@) {
            Some(first) => first,
            None => value@,
        }),
        all matches Some(values) && text::views(values@) == (match values_of(
            old(h)@,
            canonical(name@),
        ) {
            Some(before) => before.push(value@),
            None => seq![value@],
        }),
{
    lemma_canonical_ignores_case(name@, same@);
    lemma_first_value_stays(old(h)@, name@, name@, value@);
    lemma_insert_then_lookup(old(h)@, canonical(name@), value@);
}

} // verus!
