use frankenrust::quote::{go_is_print, go_quote};

#[test]
fn go_quote_matches_gos_percent_q_over_byte_strings() {
    for (raw, want) in [
        (b"".as_slice(), r#""""#),
        (b"5".as_slice(), r#""5""#),
        (b"a b".as_slice(), r#""a b""#),
        (b"\xff".as_slice(), r#""\xff""#),
        (b"\x80\xfe".as_slice(), r#""\x80\xfe""#),
        (b"\xe4\xb8".as_slice(), r#""\xe4\xb8""#),
        (b"1\x002".as_slice(), r#""1\x002""#),
        (b"a\tb\nc\r".as_slice(), r#""a\tb\nc\r""#),
        (b"\x07\x08\x0c\x0b".as_slice(), r#""\a\b\f\v""#),
        (b"\x1b".as_slice(), r#""\x1b""#),
        (b"\x7f".as_slice(), r#""\x7f""#),
        (b"say \"hi\"\\".as_slice(), r#""say \"hi\"\\""#),
        ("\u{663}".as_bytes(), "\"\u{663}\""),
        ("\u{e9}".as_bytes(), "\"\u{e9}\""),
        ("\u{1f600}".as_bytes(), "\"\u{1f600}\""),
        ("\u{80}".as_bytes(), r#""\u0080""#),
        ("\u{e0001}".as_bytes(), r#""\U000e0001""#),
        ("\u{301}".as_bytes(), "\"\u{301}\""),
        ("\u{9be}".as_bytes(), "\"\u{9be}\""),
        ("\u{ff9e}".as_bytes(), "\"\u{ff9e}\""),
        ("\u{20e3}".as_bytes(), "\"\u{20e3}\""),
        (b"e\xcc\x81".as_slice(), "\"e\u{301}\""),
        ("\u{200c}".as_bytes(), r#""\u200c""#),
        ("\u{a0}".as_bytes(), r#""\u00a0""#),
        ("\u{2028}".as_bytes(), r#""\u2028""#),
        (b"it's".as_slice(), r#""it's""#),
    ] {
        assert_eq!(go_quote(raw), want, "go_quote({raw:?})");
    }
}

fn all_scalars() -> impl Iterator<Item = char> {
    (0..=0x10_FFFF_u32).filter_map(char::from_u32)
}

struct Fnv(u64);

impl Fnv {
    const PRIME: u64 = 0x100_0000_01b3;

    fn new() -> Self {
        Fnv(0xcbf2_9ce4_8422_2325)
    }

    fn write(&mut self, bytes: &[u8]) {
        for &b in bytes {
            self.0 ^= u64::from(b);
            self.0 = self.0.wrapping_mul(Self::PRIME);
        }
    }

    fn sep(&mut self) {
        self.0 = self.0.wrapping_mul(Self::PRIME);
    }
}

struct XorShift64(u64);

impl XorShift64 {
    fn next(&mut self) -> u64 {
        self.0 ^= self.0 << 13;
        self.0 ^= self.0 >> 7;
        self.0 ^= self.0 << 17;
        self.0
    }
}

#[test]
fn go_quote_escapes_the_scalars_go_1_26_calls_unassigned() {
    for (scalar, want) in [
        (0x0_0377_u32, "\"\u{377}\""),
        (0x0_0378, r#""\u0378""#),
        (0x0_0379, r#""\u0379""#),
        (0x0_037a, "\"\u{37a}\""),
        (0x0_0530, r#""\u0530""#),
        (0x0_0559, "\"\u{559}\""),
        (0x0_fffd, "\"\u{fffd}\""),
        (0x0_fffe, r#""\ufffe""#),
        (0x1_0000, "\"\u{10000}\""),
        (0x1_000b, "\"\u{1000b}\""),
        (0x1_000c, r#""\U0001000c""#),
        (0x1_000d, "\"\u{1000d}\""),
        (0x1_fbf9, "\"\u{1fbf9}\""),
        (0x1_fbfa, r#""\U0001fbfa""#),
        (0x2_0000, "\"\u{20000}\""),
        (0x2_a6df, "\"\u{2a6df}\""),
        (0x2_a6e0, r#""\U0002a6e0""#),
        (0x2_ceb0, "\"\u{2ceb0}\""),
        (0x2_ebe0, "\"\u{2ebe0}\""),
        (0x2_ebe1, r#""\U0002ebe1""#),
        (0x2_ebf0, r#""\U0002ebf0""#),
        (0x2_ee5d, r#""\U0002ee5d""#),
        (0x3_1350, "\"\u{31350}\""),
        (0x3_23af, "\"\u{323af}\""),
        (0x3_23b0, r#""\U000323b0""#),
        (0x3_347b, r#""\U0003347b""#),
        (0xe_0100, "\"\u{e0100}\""),
        (0xe_01ef, "\"\u{e01ef}\""),
        (0xe_01f0, r#""\U000e01f0""#),
    ] {
        let c = char::from_u32(scalar).expect("test vectors are scalar values");
        let mut encoded = [0u8; 4];
        assert_eq!(
            go_quote(c.encode_utf8(&mut encoded).as_bytes()),
            want,
            "go_quote(U+{scalar:04X})"
        );
    }
}

#[test]
fn go_is_print_matches_go_1_26_over_every_scalar() {
    let mut hash = Fnv::new();
    let mut printable = 0usize;
    let mut scalars = 0usize;
    for c in all_scalars() {
        let is_print = go_is_print(c);
        scalars += 1;
        printable += usize::from(is_print);
        hash.write(&[u8::from(is_print)]);
    }

    assert_eq!(scalars, 1_112_064, "scalar values visited");
    assert_eq!(printable, 148_998, "scalars strconv.IsPrint accepts");
    assert_eq!(
        hash.0, 0x23cf_2c1e_d413_9389,
        "FNV-1a of the IsPrint bit stream"
    );
}

#[test]
fn go_quote_matches_go_1_26_over_a_generated_corpus() {
    let mut hash = Fnv::new();
    let mut cases = 0usize;
    {
        let mut emit = |bytes: &[u8]| {
            hash.write(go_quote(bytes).as_bytes());
            hash.sep();
            cases += 1;
        };

        for b in 0..=u8::MAX {
            emit(&[b]);
        }

        let mut encoded = [0u8; 4];
        for c in all_scalars() {
            let bytes = c.encode_utf8(&mut encoded).as_bytes();
            emit(bytes);

            let mut embedded = Vec::with_capacity(bytes.len() + 2);
            embedded.push(b'x');
            embedded.extend_from_slice(bytes);
            embedded.push(0x80);
            emit(&embedded);
        }

        let mut rng = XorShift64(0x2545_f491_4f6c_dd1d);
        for _ in 0..200_000 {
            let len = (rng.next() % 16) as usize;
            let soup: Vec<u8> = (0..len).map(|_| rng.next() as u8).collect();
            emit(&soup);
        }
    }

    assert_eq!(cases, 2_424_384, "corpus size");
    assert_eq!(
        hash.0, 0xe6d9_c276_51d3_077e,
        "FNV-1a of every %q output in the corpus"
    );
}

#[test]
fn quoting_keeps_what_is_printable_between_quotes() {
    assert_eq!(go_quote(b"plain"), "\"plain\"");
    assert!(go_is_print(' '));
    assert!(!go_is_print('\u{ad}'));
}

#[test]
fn different_byte_strings_are_quoted_differently() {
    let strings: [&[u8]; 9] = [
        b"\x80",
        b"\\x80",
        "\u{80}".as_bytes(),
        b"\x07",
        b"\\a",
        b"\"",
        b"\\\"",
        "\u{fffd}".as_bytes(),
        b"\xef\xbf",
    ];
    for (i, a) in strings.iter().enumerate() {
        for b in &strings[i + 1..] {
            assert_ne!(go_quote(a), go_quote(b));
        }
    }
}
