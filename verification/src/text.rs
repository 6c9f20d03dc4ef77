//! Bytes, strings and the few facts about them that the other modules share.
//!
//! Paths, header values and everything PHP hands over are bytes with no promised
//! encoding, so the models are `Seq<u8>`. Names and messages are Rust strings, whose
//! view is `Seq<char>` and whose bytes are `encode_utf8` of that view.
use vstd::prelude::*;
use vstd::utf8::*;

verus! {

pub const SPACE: u8 = 0x20;

pub const PERCENT: u8 = 0x25;

pub const PLUS: u8 = 0x2b;

pub const COMMA: u8 = 0x2c;

pub const HYPHEN: u8 = 0x2d;

pub const DOT: u8 = 0x2e;

pub const SLASH: u8 = 0x2f;

pub const DIGIT_0: u8 = 0x30;

pub const DIGIT_9: u8 = 0x39;

pub const COLON: u8 = 0x3a;

pub const EQUALS: u8 = 0x3d;

pub const UPPER_A: u8 = 0x41;

pub const UPPER_F: u8 = 0x46;

pub const UPPER_Z: u8 = 0x5a;

pub const OPEN_BRACKET: u8 = 0x5b;

pub const BACKSLASH: u8 = 0x5c;

pub const CLOSE_BRACKET: u8 = 0x5d;

pub const UNDERSCORE: u8 = 0x5f;

pub const LOWER_A: u8 = 0x61;

pub const LOWER_F: u8 = 0x66;

pub const LOWER_Z: u8 = 0x7a;

/// `String::push` appends one character.
pub assume_specification[ String::push ](s: &mut String, c: char)
    ensures
        final(s)@ == old(s)@.push(c),
;

/// `char::from_u32` gives the character with that scalar value, and nothing for a number
/// that is no Unicode scalar value (a surrogate, or above 0x10FFFF).
pub assume_specification[ char::from_u32 ](i: u32) -> (c: Option<char>)
    ensures
        c is Some <==> is_scalar(i),
        c matches Some(c) ==> c as u32 == i,
;

/// `String::from_utf8` gives the string with exactly these bytes where they are valid UTF-8,
/// and an error where they are not.
#[verifier::external_body]
pub(crate) fn string_from_utf8(bytes: Vec<u8>) -> (r: Option<String>)
    ensures
        r is Some <==> valid_utf8(bytes@),
        r matches Some(s) ==> encode_utf8(s@) == bytes@,
{
    String::from_utf8(bytes).ok()
}

/// The characters that `String::from_utf8_lossy` reads bytes as.
pub uninterp spec fn lossy_text(bytes: Seq<u8>) -> Seq<char>;

/// `String::from_utf8_lossy` reads bytes as a string, with replacement characters for what is
/// not valid UTF-8. Which bytes share one replacement character is left unsaid; valid UTF-8 is
/// read as it stands.
#[verifier::external_body]
pub(crate) fn string_lossy(bytes: &[u8]) -> (r: String)
    ensures
        r@ == lossy_text(bytes@),
        valid_utf8(bytes@) ==> encode_utf8(r@) == bytes@,
{
    String::from_utf8_lossy(bytes).into_owned()
}

/// The bytes of each element.
pub open spec fn views(v: Seq<Vec<u8>>) -> Seq<Seq<u8>> {
    v.map_values(|x: Vec<u8>| x@)
}

/// The characters of each element.
pub open spec fn strings(v: Seq<String>) -> Seq<Seq<char>> {
    v.map_values(|x: String| x@)
}

/// The UTF-8 bytes of each element.
pub open spec fn string_bytes(v: Seq<String>) -> Seq<Seq<u8>> {
    v.map_values(|x: String| encode_utf8(x@))
}

/// A copy of a slice.
pub fn to_vec(s: &[u8]) -> (r: Vec<u8>)
    ensures
        r@ == s@,
{
    let mut r: Vec<u8> = Vec::with_capacity(s.len());
    r.extend_from_slice(s);
    assert(r@ =~= s@);
    r
}

/// A copy of the bytes `from..to` of a slice.
pub fn copy_range(s: &[u8], from: usize, to: usize) -> (r: Vec<u8>)
    requires
        from <= to <= s@.len(),
    ensures
        r@ == s@.subrange(from as int, to as int),
{
    to_vec(vstd::slice::slice_subrange(s, from, to))
}

/// A copy of several byte strings.
pub fn copy_values(values: &[Vec<u8>]) -> (r: Vec<Vec<u8>>)
    ensures
        views(r@) == views(values@),
{
    let mut r: Vec<Vec<u8>> = Vec::new();
    let mut i: usize = 0;
    while i < values.len()
        invariant
            i <= values@.len(),
            r@.len() == i,
            forall|k: int| 0 <= k < i ==> (#[trigger] r@[k])@ == values@[k]@,
        decreases values@.len() - i,
    {
        r.push(to_vec(values[i].as_slice()));
        i = i + 1;
    }
    assert(views(r@) =~= views(values@));
    r
}

/// A copy of a string's bytes.
pub fn str_bytes(s: &str) -> (r: Vec<u8>)
    ensures
        r@ == encode_utf8(s@),
{
    to_vec(s.as_bytes())
}

/// Appends a slice.
pub fn append(out: &mut Vec<u8>, s: &[u8])
    ensures
        final(out)@ == old(out)@ + s@,
{
    out.extend_from_slice(s);
    assert(out@ =~= old(out)@ + s@);
}

/// Whether two slices hold the same bytes.
pub fn same_bytes(a: &[u8], b: &[u8]) -> (r: bool)
    ensures
        r == (a@ == b@),
{
    if a.len() != b.len() {
        return false;
    }
    let mut i: usize = 0;
    while i < a.len()
        invariant
            i <= a@.len(),
            a@.len() == b@.len(),
            a@.take(i as int) == b@.take(i as int),
        decreases a@.len() - i,
    {
        if a[i] != b[i] {
            return false;
        }
        assert(a@.take(i + 1) =~= a@.take(i as int).push(a@[i as int]));
        assert(b@.take(i + 1) =~= b@.take(i as int).push(b@[i as int]));
        i = i + 1;
    }
    assert(a@.take(i as int) =~= a@);
    assert(b@.take(i as int) =~= b@);
    true
}

/// Whether two strings hold the same characters.
pub fn same_str(a: &str, b: &str) -> (r: bool)
    ensures
        r == (a@ == b@),
{
    proof {
        encode_utf8_decode_utf8(a@);
        encode_utf8_decode_utf8(b@);
    }
    same_bytes(a.as_bytes(), b.as_bytes())
}

/// The string with these bytes, which must be valid UTF-8.
pub fn to_string(bytes: Vec<u8>) -> (r: String)
    requires
        valid_utf8(bytes@),
    ensures
        encode_utf8(r@) == bytes@,
{
    string_from_utf8(bytes).unwrap()
}

pub open spec fn is_upper(b: u8) -> bool {
    UPPER_A <= b <= UPPER_Z
}

pub open spec fn is_lower(b: u8) -> bool {
    LOWER_A <= b <= LOWER_Z
}

pub open spec fn is_digit(b: u8) -> bool {
    DIGIT_0 <= b <= DIGIT_9
}

/// The byte with ASCII capitals made small, and every other byte unchanged.
pub open spec fn lower(b: u8) -> u8 {
    if is_upper(b) {
        (b + 32) as u8
    } else {
        b
    }
}

/// The byte with ASCII small letters made capital, and every other byte unchanged.
pub open spec fn upper(b: u8) -> u8 {
    if is_lower(b) {
        (b - 32) as u8
    } else {
        b
    }
}

pub fn to_lower(b: u8) -> (r: u8)
    ensures
        r == lower(b),
{
    if UPPER_A <= b && b <= UPPER_Z {
        b + 32
    } else {
        b
    }
}

pub fn to_upper(b: u8) -> (r: u8)
    ensures
        r == upper(b),
{
    if LOWER_A <= b && b <= LOWER_Z {
        b - 32
    } else {
        b
    }
}

/// The character with ASCII capitals made small, and every other character unchanged.
pub open spec fn lower_char(c: char) -> char {
    if 'A' <= c <= 'Z' {
        ((c as u8) + 32) as char
    } else {
        c
    }
}

/// The character with ASCII small letters made capital, and every other character unchanged.
pub open spec fn upper_char(c: char) -> char {
    if 'a' <= c <= 'z' {
        ((c as u8) - 32) as char
    } else {
        c
    }
}

/// The characters with ASCII capitals made small.
pub open spec fn lower_chars(s: Seq<char>) -> Seq<char> {
    s.map_values(|c: char| lower_char(c))
}

/// The string with ASCII capitals made small.
pub fn lowercase(s: &str) -> (r: String)
    ensures
        r@ == lower_chars(s@),
{
    let n: usize = s.unicode_len();
    let mut r = String::new();
    let mut i: usize = 0;
    while i < n
        invariant
            n == s@.len(),
            i <= n,
            r@ == lower_chars(s@).take(i as int),
        decreases n - i,
    {
        let c = s.get_char(i);
        if 'A' <= c && c <= 'Z' {
            r.push(to_lower(c as u8) as char);
        } else {
            r.push(c);
        }
        assert(r@ =~= lower_chars(s@).take(i + 1));
        i = i + 1;
    }
    assert(r@ =~= lower_chars(s@));
    r
}

/// The first position of `b` in `s`.
pub open spec fn first_index(s: Seq<u8>, b: u8) -> Option<int>
    decreases s.len(),
{
    if s.len() == 0 {
        None
    } else if s[0] == b {
        Some(0)
    } else {
        match first_index(s.skip(1), b) {
            Some(i) => Some(i + 1),
            None => None,
        }
    }
}

/// The last position of `b` in `s`.
pub open spec fn last_index(s: Seq<u8>, b: u8) -> Option<int>
    decreases s.len(),
{
    if s.len() == 0 {
        None
    } else if s.last() == b {
        Some(s.len() - 1)
    } else {
        last_index(s.drop_last(), b)
    }
}

/// A first position is one where the byte stands, with the byte nowhere before it.
pub proof fn lemma_first_index(s: Seq<u8>, b: u8)
    ensures
        match first_index(s, b) {
            Some(i) => 0 <= i < s.len() && s[i] == b && !s.take(i).contains(b),
            None => !s.contains(b),
        },
    decreases s.len(),
{
    if s.len() > 0 && s[0] != b {
        lemma_first_index(s.skip(1), b);
        match first_index(s.skip(1), b) {
            Some(i) => {
                assert(s[i + 1] == s.skip(1)[i]);
                assert forall|j: int| 0 <= j < i + 1 implies s[j] != b by {
                    if j > 0 {
                        assert(s[j] == s.skip(1).take(i)[j - 1]);
                    }
                }
            },
            None => {
                assert forall|j: int| 0 <= j < s.len() implies s[j] != b by {
                    if j > 0 {
                        assert(s[j] == s.skip(1)[j - 1]);
                    }
                }
            },
        }
    }
}

/// A last position is one where the byte stands, with the byte nowhere after it.
pub proof fn lemma_last_index(s: Seq<u8>, b: u8)
    ensures
        match last_index(s, b) {
            Some(i) => 0 <= i < s.len() && s[i] == b && !s.skip(i + 1).contains(b),
            None => !s.contains(b),
        },
    decreases s.len(),
{
    if s.len() > 0 && s.last() != b {
        lemma_last_index(s.drop_last(), b);
        match last_index(s.drop_last(), b) {
            Some(i) => {
                assert forall|j: int| i + 1 <= j < s.len() implies s[j] != b by {
                    if j < s.len() - 1 {
                        assert(s[j] == s.drop_last().skip(i + 1)[j - (i + 1)]);
                    }
                }
            },
            None => {
                assert forall|j: int| 0 <= j < s.len() implies s[j] != b by {
                    if j < s.len() - 1 {
                        assert(s[j] == s.drop_last()[j]);
                    }
                }
            },
        }
    }
}

pub fn find(s: &[u8], b: u8) -> (r: Option<usize>)
    ensures
        match r {
            Some(i) => first_index(s@, b) == Some(i as int),
            None => first_index(s@, b) is None,
        },
{
    let mut i: usize = 0;
    proof {
        assert(s@.skip(0) =~= s@);
    }
    while i < s.len()
        invariant
            i <= s@.len(),
            first_index(s@, b) == match first_index(s@.skip(i as int), b) {
                Some(k) => Some(k + i),
                None => None,
            },
        decreases s@.len() - i,
    {
        if s[i] == b {
            return Some(i);
        }
        assert(s@.skip(i as int).skip(1) =~= s@.skip(i + 1));
        i = i + 1;
    }
    None
}

pub fn rfind(s: &[u8], b: u8) -> (r: Option<usize>)
    ensures
        match r {
            Some(i) => last_index(s@, b) == Some(i as int),
            None => last_index(s@, b) is None,
        },
{
    let mut i: usize = s.len();
    proof {
        assert(s@.take(i as int) =~= s@);
    }
    while i > 0
        invariant
            i <= s@.len(),
            last_index(s@, b) == last_index(s@.take(i as int), b),
        decreases i,
    {
        assert(s@.take(i as int).last() == s@[i - 1]);
        assert(s@.take(i as int).drop_last() =~= s@.take(i - 1));
        if s[i - 1] == b {
            return Some(i - 1);
        }
        i = i - 1;
    }
    None
}

/// Whether `b` occurs in `s`.
pub fn contains(s: &[u8], b: u8) -> (r: bool)
    ensures
        r == s@.contains(b),
{
    proof {
        lemma_first_index(s@, b);
    }
    find(s, b).is_some()
}

/// The values with `sep` between neighbours.
pub open spec fn joined_with(values: Seq<Seq<u8>>, sep: Seq<u8>) -> Seq<u8>
    decreases values.len(),
{
    if values.len() == 0 {
        seq![]
    } else if values.len() == 1 {
        values[0]
    } else {
        joined_with(values.drop_last(), sep) + sep + values.last()
    }
}

/// The values with `sep` between neighbours.
pub fn join_values(values: &[Vec<u8>], sep: &[u8]) -> (out: Vec<u8>)
    ensures
        out@ == joined_with(views(values@), sep@),
{
    let mut out: Vec<u8> = Vec::new();
    let mut i: usize = 0;
    let ghost all = views(values@);
    proof {
        assert(out@ =~= joined_with(all.take(0), sep@));
    }
    while i < values.len()
        invariant
            i <= values@.len(),
            all == views(values@),
            out@ == joined_with(all.take(i as int), sep@),
        decreases values@.len() - i,
    {
        if i > 0 {
            append(&mut out, sep);
        }
        append(&mut out, values[i].as_slice());
        proof {
            let next = all.take(i + 1);
            assert(next.drop_last() =~= all.take(i as int));
            assert(next.last() == values@[i as int]@);
            if i == 0 {
                assert(out@ =~= next[0]);
            } else {
                assert(out@ =~= joined_with(next, sep@));
            }
        }
        i = i + 1;
    }
    assert(all.take(i as int) =~= all);
    out
}

/// The decimal digits of a number.
pub open spec fn decimal(n: nat) -> Seq<u8>
    decreases n,
{
    if n < 10 {
        seq![(DIGIT_0 + n) as u8]
    } else {
        decimal(n / 10).push((DIGIT_0 + n % 10) as u8)
    }
}

pub fn decimal_bytes(n: u64) -> (r: Vec<u8>)
    ensures
        r@ == decimal(n as nat),
    decreases n,
{
    if n < 10 {
        let mut r: Vec<u8> = Vec::new();
        r.push(DIGIT_0 + (n as u8));
        assert(r@ =~= decimal(n as nat));
        r
    } else {
        let mut r = decimal_bytes(n / 10);
        r.push(DIGIT_0 + ((n % 10) as u8));
        assert(r@ =~= decimal(n as nat));
        r
    }
}

pub proof fn lemma_decimal_ascii(n: nat)
    ensures
        forall|i: int| 0 <= i < decimal(n).len() ==> #[trigger] decimal(n)[i] < 0x80,
    decreases n,
{
    if n >= 10 {
        lemma_decimal_ascii(n / 10);
        assert forall|i: int| 0 <= i < decimal(n).len() implies #[trigger] decimal(n)[i] < 0x80 by {
            if i < decimal(n / 10).len() {
                assert(decimal(n)[i] == decimal(n / 10)[i]);
            }
        }
    }
}

/// The decimal digits of a number, as characters.
pub open spec fn decimal_chars(n: nat) -> Seq<char> {
    decode_utf8(decimal(n))
}

/// The decimal digits of a number, as a string.
pub fn decimal_string(n: u64) -> (r: String)
    ensures
        r@ == decimal_chars(n as nat),
{
    let digits = decimal_bytes(n);
    proof {
        lemma_decimal_ascii(n as nat);
        lemma_ascii_valid(digits@);
    }
    let r = to_string(digits);
    proof {
        encode_utf8_decode_utf8(r@);
    }
    r
}

/// The number that decimal digits stand for.
pub open spec fn digits_value(s: Seq<u8>) -> nat
    decreases s.len(),
{
    if s.len() == 0 {
        0
    } else {
        digits_value(s.drop_last()) * 10 + (s.last() - DIGIT_0) as nat
    }
}

pub open spec fn all_digits(s: Seq<u8>) -> bool {
    forall|i: int| 0 <= i < s.len() ==> is_digit(#[trigger] s[i])
}

/// The number of an optional sign and at least one decimal digit, where it fits in an `i64`.
pub open spec fn parsed_i64(s: Seq<u8>) -> Option<int> {
    let signed = s.len() > 0 && (s[0] == PLUS || s[0] == HYPHEN);
    let digits = if signed {
        s.skip(1)
    } else {
        s
    };
    let n = if signed && s[0] == HYPHEN {
        -(digits_value(digits) as int)
    } else {
        digits_value(digits) as int
    };
    if digits.len() > 0 && all_digits(digits) && i64::MIN <= n <= i64::MAX {
        Some(n)
    } else {
        None
    }
}

/// The number that decimal digits stand for, or nothing where there is a byte that is no digit
/// or the number is above `limit`.
fn parse_digits(s: &[u8], limit: u64) -> (r: Option<u64>)
    requires
        limit <= 0x8000_0000_0000_0000,
    ensures
        match r {
            Some(n) => all_digits(s@) && n == digits_value(s@) && n <= limit,
            None => !all_digits(s@) || digits_value(s@) > limit,
        },
{
    let mut n: u64 = 0;
    let mut over: bool = false;
    let mut i: usize = 0;
    while i < s.len()
        invariant
            limit <= 0x8000_0000_0000_0000,
            i <= s@.len(),
            forall|k: int| 0 <= k < i ==> is_digit(#[trigger] s@[k]),
            !over ==> n == digits_value(s@.take(i as int)) && n <= limit,
            over ==> digits_value(s@.take(i as int)) > limit,
        decreases s@.len() - i,
    {
        let b = s[i];
        if b < DIGIT_0 || b > DIGIT_9 {
            assert(!is_digit(s@[i as int]));
            return None;
        }
        proof {
            assert(s@.take(i + 1).drop_last() =~= s@.take(i as int));
            assert(s@.take(i + 1).last() == b);
        }
        if !over {
            let next: u128 = (n as u128) * 10 + ((b - DIGIT_0) as u128);
            if next > limit as u128 {
                over = true;
            } else {
                n = next as u64;
            }
        }
        i = i + 1;
    }
    assert(s@.take(i as int) =~= s@);
    if over {
        None
    } else {
        Some(n)
    }
}

/// The number of an optional sign and at least one decimal digit, where it fits in an `i64`.
pub fn parse_i64(s: &[u8]) -> (r: Option<i64>)
    ensures
        match r {
            Some(n) => parsed_i64(s@) == Some(n as int),
            None => parsed_i64(s@) is None,
        },
{
    let n: usize = s.len();
    let negative = n > 0 && s[0] == HYPHEN;
    let signed = n > 0 && (s[0] == PLUS || s[0] == HYPHEN);
    let digits = if signed {
        vstd::slice::slice_subrange(s, 1, n)
    } else {
        s
    };
    proof {
        if signed {
            assert(digits@ =~= s@.skip(1));
        }
    }
    if digits.len() == 0 {
        return None;
    }
    if negative {
        match parse_digits(digits, 0x8000_0000_0000_0000) {
            Some(v) => {
                if v == 0x8000_0000_0000_0000 {
                    Some(i64::MIN)
                } else {
                    Some(-(v as i64))
                }
            },
            None => None,
        }
    } else {
        match parse_digits(digits, 0x7fff_ffff_ffff_ffff) {
            Some(v) => Some(v as i64),
            None => None,
        }
    }
}

/// Bytes below 0x80 are valid UTF-8.
pub proof fn lemma_ascii_valid(s: Seq<u8>)
    requires
        forall|i: int| 0 <= i < s.len() ==> s[i] < 0x80,
    ensures
        valid_utf8(s),
    decreases s.len(),
{
    if s.len() > 0 {
        let b = s[0];
        assert(b & 0x7f == b) by (bit_vector)
            requires
                b < 0x80,
        ;
        assert(valid_first_scalar(s));
        assert(pop_first_scalar(s) =~= s.skip(1));
        lemma_ascii_valid(s.skip(1));
    }
}

/// Valid UTF-8 cut beside an ASCII byte, or at either end, is valid on both sides of the cut.
pub proof fn lemma_cut_at_ascii(s: Seq<u8>, i: int)
    requires
        valid_utf8(s),
        0 <= i <= s.len(),
        i == 0 || i == s.len() || s[i] < 0x80 || s[i - 1] < 0x80,
    ensures
        valid_utf8(s.take(i)),
        valid_utf8(s.skip(i)),
    decreases i,
{
    if i == 0 || i == s.len() {
        is_char_boundary_start_end_of_seq(s);
        valid_utf8_split(s, i);
        assert(s.take(i) =~= s.subrange(0, i));
        assert(s.skip(i) =~= s.subrange(i, s.len() as int));
    } else if s[i] < 0x80 {
        is_char_boundary_iff_not_is_continuation_byte(s, i);
        valid_utf8_split(s, i);
        assert(s.take(i) =~= s.subrange(0, i));
        assert(s.skip(i) =~= s.subrange(i, s.len() as int));
    } else {
        lemma_cut_at_ascii(s, i - 1);
        let tail = s.skip(i - 1);
        assert(valid_first_scalar(tail));
        assert(pop_first_scalar(tail) =~= s.skip(i));
        let head = seq![s[i - 1]];
        lemma_ascii_valid(head);
        valid_utf8_concat(s.take(i - 1), head);
        assert(s.take(i) =~= s.take(i - 1) + head);
    }
}

/// The digits of a number are decimal digits that read back to it, without a needless zero in
/// front, so different numbers have different digits.
pub proof fn lemma_decimal_reads_back(n: nat)
    ensures
        decimal(n).len() > 0,
        forall|i: int| 0 <= i < decimal(n).len() ==> 0x30 <= #[trigger] decimal(n)[i] <= 0x39,
        all_digits(decimal(n)),
        digits_value(decimal(n)) == n,
        n >= 10 ==> decimal(n).len() > 1,
        decimal(n).len() > 1 ==> decimal(n)[0] != 0x30,
    decreases n,
{
    if n < 10 {
        let d = decimal(n);
        assert(d.drop_last() =~= seq![]);
        assert(digits_value(Seq::<u8>::empty()) == 0);
        assert(digits_value(d) == n);
    } else {
        let front = decimal(n / 10);
        let d = decimal(n);
        lemma_decimal_reads_back(n / 10);
        assert(d.drop_last() =~= front);
        assert(d.last() == 0x30 + n % 10);
        assert forall|i: int| 0 <= i < d.len() implies 0x30 <= #[trigger] d[i] <= 0x39 by {
            if i < front.len() {
                assert(d[i] == front[i]);
            }
        }
        assert(d[0] == front[0]);
        if n / 10 < 10 {
            assert(front[0] == 0x30 + n / 10);
        }
    }
}

/// Digits are read by their places: one more digit behind them makes the number ten times as
/// large and adds the digit's own value, and no digits at all are zero.
pub proof fn lemma_digits_have_places(s: Seq<u8>, digit: u8)
    requires
        0x30 <= digit <= 0x39,
    ensures
        digits_value(s.push(digit)) == 10 * digits_value(s) + (digit - 0x30),
        digits_value(Seq::<u8>::empty()) == 0,
{
    assert(s.push(digit).drop_last() =~= s);
}

/// Every number that fits is read from its digits, with or without a sign, and zero is one of
/// them. What holds anything but digits behind its sign, or no digit at all, is no number.
pub proof fn lemma_numbers_are_parsed(n: nat, s: Seq<u8>)
    ensures
        n <= 0x7fff_ffff_ffff_ffff ==> parsed_i64(decimal(n)) == Some(n as int),
        n <= 0x7fff_ffff_ffff_ffff ==> parsed_i64(seq![0x2bu8] + decimal(n)) == Some(n as int),
        n <= 0x8000_0000_0000_0000 ==> parsed_i64(seq![0x2du8] + decimal(n)) == Some(-(n as int)),
        n > 0x7fff_ffff_ffff_ffff ==> parsed_i64(decimal(n)) is None,
        n > 0x8000_0000_0000_0000 ==> parsed_i64(seq![0x2du8] + decimal(n)) is None,
        s.len() == 0 ==> parsed_i64(s) is None,
        s.len() == 1 && !(0x30 <= s[0] <= 0x39) ==> parsed_i64(s) is None,
        (exists|i: int| 0 < i < s.len() && !(0x30 <= #[trigger] s[i] <= 0x39)) ==> parsed_i64(
            s,
        ) is None,
        s.len() > 0 && !(0x30 <= s[0] <= 0x39) && s[0] != 0x2b && s[0] != 0x2d ==> parsed_i64(
            s,
        ) is None,
{
    lemma_decimal_reads_back(n);
    let d = decimal(n);
    assert((seq![0x2bu8] + d).skip(1) =~= d);
    assert((seq![0x2du8] + d).skip(1) =~= d);
    assert(0x30 <= d[0] <= 0x39);
    if exists|i: int| 0 < i < s.len() && !(0x30 <= #[trigger] s[i] <= 0x39) {
        let i = choose|i: int| 0 < i < s.len() && !(0x30 <= #[trigger] s[i] <= 0x39);
        assert(s.skip(1)[i - 1] == s[i]);
        assert(!is_digit(s[i]));
        assert(!is_digit(s.skip(1)[i - 1]));
    }
    if s.len() == 1 {
        assert(s.skip(1).len() == 0);
        if !(0x30 <= s[0] <= 0x39) {
            assert(!is_digit(s[0]));
        }
    }
    if s.len() > 0 && !(0x30 <= s[0] <= 0x39) {
        assert(!is_digit(s[0]));
    }
}

/// A letter is made small or capital by the distance between the alphabets, and nothing else is
/// changed.
pub proof fn lemma_case_of_bytes(b: u8)
    ensures
        0x41 <= b <= 0x5a ==> lower(b) == b + 0x20 && upper(b) == b && upper(lower(b)) == b,
        0x61 <= b <= 0x7a ==> upper(b) == b - 0x20 && lower(b) == b && lower(upper(b)) == b,
        !(0x41 <= b <= 0x5a) && !(0x61 <= b <= 0x7a) ==> lower(b) == b && upper(b) == b,
{
}

/// A letter is made small or capital by the distance between the alphabets, and no other
/// character is changed.
pub proof fn lemma_case_of_characters(c: char)
    ensures
        'A' <= c <= 'Z' ==> lower_char(c) as u32 == c as u32 + 0x20 && upper_char(c) == c,
        'a' <= c <= 'z' ==> upper_char(c) as u32 == c as u32 - 0x20 && lower_char(c) == c,
        !('A' <= c <= 'Z') && !('a' <= c <= 'z') ==> lower_char(c) == c && upper_char(c) == c,
{
}

/// Values are joined whole and in order: one stands for itself, and two lists joined have the
/// separator between them.
pub proof fn lemma_joined_in_order(a: Seq<Seq<u8>>, b: Seq<Seq<u8>>, sep: Seq<u8>)
    ensures
        joined_with(Seq::<Seq<u8>>::empty(), sep) == Seq::<u8>::empty(),
        a.len() == 1 ==> joined_with(a, sep) == a[0],
        a.len() > 0 && b.len() > 0 ==> joined_with(a + b, sep) == joined_with(a, sep) + sep
            + joined_with(b, sep),
    decreases b.len(),
{
    if a.len() > 0 && b.len() > 0 {
        assert((a + b).drop_last() =~= a + b.drop_last());
        assert((a + b).last() == b.last());
        if b.len() == 1 {
            assert(a + b.drop_last() =~= a);
            assert(joined_with(a + b, sep) =~= joined_with(a, sep) + sep + b[0]);
        } else {
            lemma_joined_in_order(a, b.drop_last(), sep);
            assert(joined_with(a + b, sep) =~= joined_with(a, sep) + sep + joined_with(b, sep));
        }
    }
}

/// The characters of a number are its digits.
pub proof fn lemma_decimal_characters(n: nat)
    ensures
        encode_utf8(decimal_chars(n)) == decimal(n),
{
    lemma_decimal_ascii(n);
    lemma_ascii_valid(decimal(n));
    decode_utf8_encode_utf8(decimal(n));
}

} // verus!
