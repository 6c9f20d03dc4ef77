use frankenrust::callbacks::log::{
    enabled, escape_for_log_line, format_record, go_log, log, log_once, log_with_attr, Attr,
    Level, LogOnce, Record, SyslogLevel,
};

#[test]
fn syslog_level_mapping_matches_upstreams_table() {
    let cases = [
        (0, Level::error()),
        (3, Level::error()),
        (4, Level::warn()),
        (5, Level::info()),
        (7, Level::debug()),
    ];
    for (raw, want) in cases {
        assert_eq!(
            SyslogLevel::from_raw(raw).level(),
            want,
            "syslog level {raw} should map to {want:?}"
        );
    }
}

#[test]
fn out_of_range_syslog_level_lands_on_info_not_error() {
    for raw in [-1, 8, 42, i32::MAX] {
        assert_eq!(SyslogLevel::from_raw(raw).level(), Level::info());
    }
}

#[test]
fn every_syslog_level_has_its_name() {
    let names: Vec<&str> = (0..8).map(|raw| SyslogLevel::from_raw(raw).name()).collect();
    assert_eq!(
        names,
        ["emerg", "alert", "crit", "err", "warning", "notice", "info", "debug"]
    );
}

#[test]
fn go_log_captures_level_and_arbitrary_bytes() {
    let raw_message: &[u8] = b"caf\xC3 broken utf8";
    let mut records = Vec::new();
    go_log(&mut records, Some(raw_message), 3);

    assert_eq!(records.len(), 1);
    assert_eq!(records[0].level, Level::error());
    assert_eq!(records[0].message, raw_message);
}

#[test]
fn go_log_tolerates_a_null_message() {
    let mut records = Vec::new();
    go_log(&mut records, None, 3);

    assert_eq!(records.len(), 1);
    assert_eq!(records[0].level, Level::error());
    assert!(records[0].message.is_empty());
    assert_eq!(records[0].attrs.len(), 1);
    assert_eq!(records[0].attrs[0].value, "err");
}

#[test]
fn go_log_attaches_the_syslog_level_name() {
    let mut records = Vec::new();
    go_log(&mut records, Some(b"degraded"), 4);

    assert_eq!(records.len(), 1);
    assert_eq!(records[0].attrs.len(), 1);
    assert_eq!(records[0].attrs[0].key, "syslog_level");
    assert_eq!(records[0].attrs[0].value, "warning");
}

#[test]
fn disabled_level_does_not_format_the_message_or_build_attrs() {
    let mut records = Vec::new();
    log(
        &mut records,
        Level::debug(),
        || panic!("message must not be formatted for a disabled level"),
        || panic!("attrs must not be built for a disabled level"),
    );

    assert!(records.is_empty());
}

#[test]
fn log_once_does_not_consume_the_once_on_a_disabled_level() {
    let mut once = LogOnce::new();

    let mut disabled_records = Vec::new();
    log_once(
        &mut once,
        &mut disabled_records,
        Level::debug(),
        || panic!("message must not be formatted for a disabled level"),
        || panic!("attrs must not be built for a disabled level"),
    );
    assert!(disabled_records.is_empty());

    let mut enabled_records = Vec::new();
    log_once(
        &mut once,
        &mut enabled_records,
        Level::warn(),
        || b"now enabled".to_vec(),
        Vec::new,
    );
    assert_eq!(enabled_records.len(), 1);
}

#[test]
fn escape_for_log_line_escapes_newlines_so_a_message_cannot_forge_a_second_line() {
    let escaped = escape_for_log_line(b"ok\nfrankenrust[Level(8)]: forged, not a real record");

    assert!(
        !escaped.contains('\n'),
        "an escaped line must contain no raw newline; got {escaped:?}"
    );
    assert_eq!(
        escaped,
        "ok\\nfrankenrust[Level(8)]: forged, not a real record"
    );
}

#[test]
fn escape_for_log_line_disambiguates_distinct_invalid_utf8_bytes() {
    let a = escape_for_log_line(&[0x80]);
    let b = escape_for_log_line(&[0x81]);

    assert_ne!(a, b, "distinct invalid bytes must render distinctly");
    assert_eq!(a, "\\x80");
    assert_eq!(b, "\\x81");
}

#[test]
fn escape_for_log_line_passes_printable_ascii_through_unchanged() {
    assert_eq!(
        escape_for_log_line(b"caf\xC3 broken utf8"),
        "caf\\xc3 broken utf8"
    );
    assert_eq!(escape_for_log_line(b"plain text 123"), "plain text 123");
}

#[test]
fn escapes_of_different_messages_differ() {
    let messages: [&[u8]; 6] = [b"\\n", b"\n", b"\\\\n", b"\x00", b"\\x00", b"'"];
    for (i, a) in messages.iter().enumerate() {
        for b in &messages[i + 1..] {
            assert_ne!(escape_for_log_line(a), escape_for_log_line(b));
        }
    }
}

#[test]
fn levels_from_information_on_are_kept() {
    assert!(!enabled(Level::debug()));
    assert!(enabled(Level::info()));
    assert!(enabled(Level::warn()));
    assert!(enabled(Level::error()));
    assert_eq!(Level::from_raw(2).as_raw(), 2);
    assert!(!enabled(Level::from_raw(-1)));
}

#[test]
fn a_record_is_one_line() {
    let mut records: Vec<Record> = Vec::new();
    log_with_attr(&mut records, Level::error(), b"bad\nthing", "key", "a value");
    assert_eq!(
        records[0].attrs,
        vec![Attr { key: "key", value: "a value".to_string() }]
    );
    assert_eq!(
        format_record(&records[0]),
        "frankenrust[Level(8)]: bad\\nthing key=a value"
    );
    log_with_attr(&mut records, Level::from_raw(0), b"", "k", "\u{7f}");
    assert_eq!(format_record(&records[1]), "frankenrust[Level(0)]:  k=\\x7f");
}

#[test]
fn levels_are_ordered_as_their_numbers() {
    assert_eq!(Level::debug().as_raw(), -4);
    assert_eq!(Level::info().as_raw(), 0);
    assert_eq!(Level::warn().as_raw(), 4);
    assert_eq!(Level::error().as_raw(), 8);
    assert!(Level::debug() < Level::info());
    assert!(Level::warn() < Level::error());
    let numbers = [i64::MIN, -5, -4, 0, 2, 4, 8, i64::MAX];
    for a in numbers {
        assert_eq!(Level::from_raw(a).as_raw(), a);
        for b in numbers {
            let (x, y) = (Level::from_raw(a), Level::from_raw(b));
            assert_eq!(x < y, a < b);
            assert_eq!(x == y, a == b);
            assert_eq!(x >= y, a >= b);
            assert_eq!(x.cmp(&y), a.cmp(&b));
        }
    }
}

#[test]
fn once_spent_no_closure_is_called() {
    let mut once = LogOnce::new();
    let mut records = Vec::new();
    log_once(
        &mut once,
        &mut records,
        Level::debug(),
        || panic!("the level is not kept"),
        || panic!("the level is not kept"),
    );
    assert!(!once.spent);
    log_once(
        &mut once,
        &mut records,
        Level::warn(),
        || b"first".to_vec(),
        Vec::new,
    );
    log_once(
        &mut once,
        &mut records,
        Level::error(),
        || panic!("the record was made"),
        || panic!("the record was made"),
    );
    assert_eq!(records.len(), 1);
    assert_eq!(records[0].message, b"first");
}
