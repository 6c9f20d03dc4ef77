//! Log records: levels, what is logged at all, and how a record is written as one line.
use std::cmp::Ordering;

use vstd::prelude::*;
use vstd::string::*;
use vstd::utf8::*;

use crate::quote;
use crate::text;
use crate::text::{BACKSLASH, HYPHEN};

verus! {

/// A level on the scale of Go's `log/slog`: 0 is information, and a higher number is graver.
/// Numbers between the named levels are levels too.
#[derive(Debug, Clone, Copy, PartialEq, Eq, Ord, Structural)]
pub struct Level(pub i64);

impl PartialOrd for Level {
    fn partial_cmp(&self, other: &Level) -> (r: Option<Ordering>) {
        if self.0 < other.0 {
            Some(Ordering::Less)
        } else if self.0 == other.0 {
            Some(Ordering::Equal)
        } else {
            Some(Ordering::Greater)
        }
    }
}

impl vstd::std_specs::cmp::PartialOrdSpecImpl for Level {
    open spec fn obeys_partial_cmp_spec() -> bool {
        true
    }

    /// Levels are ordered as their numbers are.
    open spec fn partial_cmp_spec(&self, other: &Level) -> Option<Ordering> {
        if self.0 < other.0 {
            Some(Ordering::Less)
        } else if self.0 == other.0 {
            Some(Ordering::Equal)
        } else {
            Some(Ordering::Greater)
        }
    }
}

impl Level {
    /// What only someone looking for a fault wants to know.
    pub fn debug() -> (r: Level)
        ensures
            r.0 == -4,
    {
        Level(-4)
    }

    /// What happens in the ordinary course.
    pub fn info() -> (r: Level)
        ensures
            r.0 == 0,
    {
        Level(0)
    }

    /// What an operator should look into.
    pub fn warn() -> (r: Level)
        ensures
            r.0 == 4,
    {
        Level(4)
    }

    /// What went wrong.
    pub fn error() -> (r: Level)
        ensures
            r.0 == 8,
    {
        Level(8)
    }

    /// The level with this number, whatever it is.
    pub fn from_raw(raw: i64) -> (r: Level)
        ensures
            r.0 == raw,
    {
        Level(raw)
    }

    /// The number of the level.
    pub fn as_raw(self) -> (r: i64)
        ensures
            r == self.0,
    {
        self.0
    }
}

/// Levels are their numbers: one level is below another exactly where its number is, and none
/// but a level itself has its number.
pub proof fn lemma_levels_are_their_numbers(a: Level, b: Level)
    ensures
        (a == b) == (a.0 == b.0),
        ({
            let order = vstd::std_specs::cmp::PartialOrdSpec::partial_cmp_spec(&a, &b);
            &&& (order == Some(Ordering::Less)) == (a.0 < b.0)
            &&& (order == Some(Ordering::Equal)) == (a == b)
            &&& (order == Some(Ordering::Greater)) == (a.0 > b.0)
        }),
{
}

/// A key and a value beside a message.
#[derive(Debug, Clone, PartialEq, Eq)]
pub struct Attr {
    pub key: &'static str,
    pub value: String,
}

/// One log record. The message is bytes: PHP promises no encoding.
#[derive(Debug, Clone, PartialEq, Eq)]
pub struct Record {
    pub level: Level,
    pub message: Vec<u8>,
    pub attrs: Vec<Attr>,
}

/// The keys and values of attributes.
pub open spec fn attr_views(attrs: Seq<Attr>) -> Seq<(Seq<char>, Seq<char>)> {
    attrs.map_values(|a: Attr| (a.key@, a.value@))
}

impl View for Record {
    type V = (int, Seq<u8>, Seq<(Seq<char>, Seq<char>)>);

    open spec fn view(&self) -> (int, Seq<u8>, Seq<(Seq<char>, Seq<char>)>) {
        (self.level.0 as int, self.message@, attr_views(self.attrs@))
    }
}

/// What a list of records holds.
pub open spec fn record_views(records: Seq<Record>) -> Seq<
    (int, Seq<u8>, Seq<(Seq<char>, Seq<char>)>),
> {
    records.map_values(|r: Record| r@)
}

/// Whether records of a level are kept: from information on.
pub open spec fn is_enabled(level: int) -> bool {
    level >= 0
}

/// Whether records of a level are kept.
pub fn enabled(level: Level) -> (r: bool)
    ensures
        r == is_enabled(level.0 as int),
{
    level.0 >= 0
}

/// Adds a record, unless its level is not kept; then neither the message nor the attributes are
/// made.
pub fn log<M: FnOnce() -> Vec<u8>, A: FnOnce() -> Vec<Attr>>(
    records: &mut Vec<Record>,
    level: Level,
    message: M,
    attrs: A,
)
    requires
        is_enabled(level.0 as int) ==> call_requires(message, ()) && call_requires(attrs, ()),
    ensures
        !is_enabled(level.0 as int) ==> final(records)@ == old(records)@,
        is_enabled(level.0 as int) ==> {
            &&& final(records)@.len() == old(records)@.len() + 1
            &&& final(records)@.drop_last() == old(records)@
            &&& final(records)@.last().level == level
            &&& call_ensures(message, (), final(records)@.last().message)
            &&& call_ensures(attrs, (), final(records)@.last().attrs)
        },
{
    if !enabled(level) {
        return;
    }
    let message = message();
    let attrs = attrs();
    records.push(Record { level, message, attrs });
    assert(records@.drop_last() =~= old(records)@);
}

/// Remembers whether something has been logged that is to be logged once.
#[derive(Debug)]
pub struct LogOnce {
    pub spent: bool,
}

impl LogOnce {
    pub fn new() -> (r: Self)
        ensures
            !r.spent,
    {
        LogOnce { spent: false }
    }
}

/// [`log`], but only the first time at a level that is kept. A level that is not kept leaves
/// the first time still to come. Where nothing is added, neither the message nor the attributes
/// are made.
pub fn log_once<M: FnOnce() -> Vec<u8>, A: FnOnce() -> Vec<Attr>>(
    once: &mut LogOnce,
    records: &mut Vec<Record>,
    level: Level,
    message: M,
    attrs: A,
)
    requires
        is_enabled(level.0 as int) && !old(once).spent ==> call_requires(message, ())
            && call_requires(attrs, ()),
    ensures
        final(once).spent == (old(once).spent || is_enabled(level.0 as int)),
        !is_enabled(level.0 as int) || old(once).spent ==> final(records)@ == old(records)@,
        is_enabled(level.0 as int) && !old(once).spent ==> {
            &&& final(records)@.len() == old(records)@.len() + 1
            &&& final(records)@.drop_last() == old(records)@
            &&& final(records)@.last().level == level
            &&& call_ensures(message, (), final(records)@.last().message)
            &&& call_ensures(attrs, (), final(records)@.last().attrs)
        },
{
    if !enabled(level) || once.spent {
        return;
    }
    once.spent = true;
    log(records, level, message, attrs);
}

/// Adds a record with this message and no attributes, unless its level is not kept.
pub fn log_message(records: &mut Vec<Record>, level: Level, message: &[u8])
    ensures
        record_views(final(records)@) == logged(
            record_views(old(records)@),
            level.0 as int,
            message@,
            seq![],
        ),
{
    let make_message = || -> (r: Vec<u8>)
        ensures
            r@ == message@,
        { text::to_vec(message) };
    let make_attrs = || -> (r: Vec<Attr>)
        ensures
            r@.len() == 0,
        { Vec::new() };
    log(records, level, make_message, make_attrs);
    proof {
        if is_enabled(level.0 as int) {
            assert(attr_views(records@.last().attrs@) =~= seq![]);
            assert(records@ =~= old(records)@.push(records@.last()));
            assert(record_views(records@) =~= record_views(old(records)@).push(records@.last()@));
        }
    }
}

/// [`log_message`], but only the first time at a level that is kept.
pub fn log_message_once(
    once: &mut LogOnce,
    records: &mut Vec<Record>,
    level: Level,
    message: &[u8],
)
    ensures
        final(once).spent == (old(once).spent || is_enabled(level.0 as int)),
        record_views(final(records)@) == (if old(once).spent {
            record_views(old(records)@)
        } else {
            logged(record_views(old(records)@), level.0 as int, message@, seq![])
        }),
{
    let make_message = || -> (r: Vec<u8>)
        ensures
            r@ == message@,
        { text::to_vec(message) };
    let make_attrs = || -> (r: Vec<Attr>)
        ensures
            r@.len() == 0,
        { Vec::new() };
    log_once(once, records, level, make_message, make_attrs);
    proof {
        if is_enabled(level.0 as int) && !old(once).spent {
            assert(attr_views(records@.last().attrs@) =~= seq![]);
            assert(records@ =~= old(records)@.push(records@.last()));
            assert(record_views(records@) =~= record_views(old(records)@).push(records@.last()@));
        }
    }
}

/// Adds a record with this message and one attribute, unless its level is not kept.
pub fn log_with_attr(
    records: &mut Vec<Record>,
    level: Level,
    message: &[u8],
    key: &'static str,
    value: &str,
)
    ensures
        record_views(final(records)@) == logged(
            record_views(old(records)@),
            level.0 as int,
            message@,
            seq![(key@, value@)],
        ),
{
    let make_message = || -> (r: Vec<u8>)
        ensures
            r@ == message@,
        { text::to_vec(message) };
    let make_attrs = || -> (r: Vec<Attr>)
        ensures
            r@.len() == 1,
            r@[0].key@ == key@,
            r@[0].value@ == value@,
        {
            let mut attrs: Vec<Attr> = Vec::new();
            attrs.push(Attr { key, value: value.to_owned() });
            attrs
        };
    log(records, level, make_message, make_attrs);
    proof {
        if is_enabled(level.0 as int) {
            assert(attr_views(records@.last().attrs@) =~= seq![(key@, value@)]);
            assert(records@ =~= old(records)@.push(records@.last()));
            assert(record_views(records@) =~= record_views(old(records)@).push(records@.last()@));
        }
    }
}

/// The records with one more, unless its level is not kept.
pub open spec fn logged(
    records: Seq<(int, Seq<u8>, Seq<(Seq<char>, Seq<char>)>)>,
    level: int,
    message: Seq<u8>,
    attrs: Seq<(Seq<char>, Seq<char>)>,
) -> Seq<(int, Seq<u8>, Seq<(Seq<char>, Seq<char>)>)> {
    if is_enabled(level) {
        records.push((level, message, attrs))
    } else {
        records
    }
}

/// A byte as it stands in a log line.
pub open spec fn escaped_byte(b: u8) -> Seq<char> {
    if b == BACKSLASH {
        seq!['\\', '\\']
    } else if b == 0x0a {
        seq!['\\', 'n']
    } else if b == 0x0d {
        seq!['\\', 'r']
    } else if b == 0x09 {
        seq!['\\', 't']
    } else if 0x20 <= b <= 0x7e {
        seq![b as char]
    } else {
        quote::hex_escape(b)
    }
}

/// Bytes as they stand in a log line: printable ASCII but the backslash for itself, every other
/// byte as an escape.
pub open spec fn escaped(s: Seq<u8>) -> Seq<char>
    decreases s.len(),
{
    if s.len() == 0 {
        seq![]
    } else {
        escaped_byte(s[0]) + escaped(s.skip(1))
    }
}

fn push_escaped(out: &mut String, b: u8)
    ensures
        final(out)@ == old(out)@ + escaped_byte(b),
{
    if b == BACKSLASH {
        out.push('\\');
        out.push('\\');
    } else if b == 0x0a {
        out.push('\\');
        out.push('n');
    } else if b == 0x0d {
        out.push('\\');
        out.push('r');
    } else if b == 0x09 {
        out.push('\\');
        out.push('t');
    } else if 0x20 <= b && b <= 0x7e {
        out.push(b as char);
    } else {
        out.push('\\');
        out.push('x');
        quote::push_hex(out, b as u32, 2);
    }
    assert(out@ =~= old(out)@ + escaped_byte(b));
}

/// Bytes as they stand in a log line.
pub fn escape_for_log_line(bytes: &[u8]) -> (r: String)
    ensures
        r@ == escaped(bytes@),
{
    let mut out = String::new();
    let mut i: usize = 0;
    proof {
        assert(bytes@.skip(0) =~= bytes@);
        assert(out@ + escaped(bytes@) =~= escaped(bytes@));
    }
    while i < bytes.len()
        invariant
            i <= bytes@.len(),
            escaped(bytes@) == out@ + escaped(bytes@.skip(i as int)),
        decreases bytes@.len() - i,
    {
        let ghost before = out@;
        let ghost rest = bytes@.skip(i as int);
        push_escaped(&mut out, bytes[i]);
        proof {
            assert(rest.skip(1) =~= bytes@.skip(i + 1));
            assert(before + (escaped_byte(rest[0]) + escaped(rest.skip(1))) =~= out@ + escaped(
                bytes@.skip(i + 1),
            ));
        }
        i = i + 1;
    }
    proof {
        assert(bytes@.skip(i as int) =~= seq![]);
        assert(out@ + escaped(Seq::<u8>::empty()) =~= out@);
    }
    out
}

proof fn lemma_hex_2(n: nat)
    requires
        n < 256,
    ensures
        quote::hex(n, 2) == seq![quote::hex_char(n / 16), quote::hex_char(n % 16)],
{
    reveal_with_fuel(quote::hex, 3);
    assert((n / 16) % 16 == n / 16);
    assert(quote::hex(n, 2) =~= seq![quote::hex_char(n / 16), quote::hex_char(n % 16)]);
}

proof fn lemma_escaped_byte(b: u8)
    ensures
        ({
            let e = escaped_byte(b);
            &&& e.len() == 1 || e.len() == 2 || e.len() == 4
            &&& e.len() == 1 ==> e == seq![b as char] && e[0] != '\\' && 0x20 <= b <= 0x7e
            &&& e.len() > 1 ==> e[0] == '\\'
            &&& e.len() == 2 ==> e[1] != 'x'
            &&& e.len() == 4 ==> e[1] == 'x' && e[2] == quote::hex_char(b as nat / 16) && e[3]
                == quote::hex_char(b as nat % 16)
            &&& forall|i: int| 0 <= i < e.len() ==> ' ' <= #[trigger] e[i] <= '~'
        }),
{
    lemma_hex_2(b as nat);
}

/// A log line holds printable ASCII only: no message can start a line of its own.
pub proof fn lemma_escaped_is_one_line(s: Seq<u8>)
    ensures
        forall|i: int| 0 <= i < escaped(s).len() ==> ' ' <= #[trigger] escaped(s)[i] <= '~',
    decreases s.len(),
{
    if s.len() > 0 {
        lemma_escaped_byte(s[0]);
        lemma_escaped_is_one_line(s.skip(1));
        let e = escaped_byte(s[0]);
        assert forall|i: int| 0 <= i < escaped(s).len() implies ' ' <= #[trigger] escaped(s)[i]
            <= '~' by {
            if i < e.len() {
                assert(escaped(s)[i] == e[i]);
            } else {
                assert(escaped(s)[i] == escaped(s.skip(1))[i - e.len()]);
            }
        }
    }
}

/// No two messages look alike in the log.
pub proof fn lemma_escaped_injective(a: Seq<u8>, b: Seq<u8>)
    requires
        escaped(a) == escaped(b),
    ensures
        a == b,
    decreases a.len(),
{
    if a.len() == 0 {
        if b.len() > 0 {
            lemma_escaped_byte(b[0]);
            assert(escaped(b).len() >= escaped_byte(b[0]).len());
            assert(escaped(a).len() == 0);
        }
        assert(a =~= b);
    } else if b.len() == 0 {
        lemma_escaped_byte(a[0]);
    } else {
        let x = escaped_byte(a[0]);
        let y = escaped_byte(b[0]);
        let s = escaped(a);
        lemma_escaped_byte(a[0]);
        lemma_escaped_byte(b[0]);
        assert(s[0] == x[0]);
        assert(s[0] == y[0]);
        if x.len() > 1 {
            assert(s[1] == x[1]);
        }
        if y.len() > 1 {
            assert(s[1] == y[1]);
        }
        assert(x.len() == y.len());
        if x.len() == 4 {
            assert(s[2] == x[2]);
            assert(s[3] == x[3]);
            assert(s[2] == y[2]);
            assert(s[3] == y[3]);
        }
        assert(a[0] == b[0]);
        assert(s.skip(x.len() as int) =~= escaped(a.skip(1)));
        assert(s.skip(x.len() as int) =~= escaped(b.skip(1)));
        lemma_escaped_injective(a.skip(1), b.skip(1));
        assert(a =~= seq![a[0]] + a.skip(1));
        assert(b =~= seq![b[0]] + b.skip(1));
    }
}

/// The level of a message that PHP logs.
#[derive(Debug, Clone, Copy, PartialEq, Eq, Structural)]
pub enum SyslogLevel {
    Emerg,
    Alert,
    Crit,
    Error,
    Warn,
    Notice,
    Info,
    Debug,
}

impl SyslogLevel {
    /// The level with this syslog number; any other number is information.
    pub open spec fn of_raw(raw: int) -> SyslogLevel {
        if raw == 0 {
            SyslogLevel::Emerg
        } else if raw == 1 {
            SyslogLevel::Alert
        } else if raw == 2 {
            SyslogLevel::Crit
        } else if raw == 3 {
            SyslogLevel::Error
        } else if raw == 4 {
            SyslogLevel::Warn
        } else if raw == 5 {
            SyslogLevel::Notice
        } else if raw == 7 {
            SyslogLevel::Debug
        } else {
            SyslogLevel::Info
        }
    }

    /// The number of the record level that the level is logged at.
    pub open spec fn record_level(self) -> int {
        match self {
            SyslogLevel::Emerg | SyslogLevel::Alert | SyslogLevel::Crit | SyslogLevel::Error => 8,
            SyslogLevel::Warn => 4,
            SyslogLevel::Notice | SyslogLevel::Info => 0,
            SyslogLevel::Debug => -4,
        }
    }

    /// The level's name.
    pub open spec fn name_spec(self) -> Seq<char> {
        match self {
            SyslogLevel::Emerg => "emerg"@,
            SyslogLevel::Alert => "alert"@,
            SyslogLevel::Crit => "crit"@,
            SyslogLevel::Error => "err"@,
            SyslogLevel::Warn => "warning"@,
            SyslogLevel::Notice => "notice"@,
            SyslogLevel::Info => "info"@,
            SyslogLevel::Debug => "debug"@,
        }
    }

    pub fn from_raw(raw: i32) -> (r: SyslogLevel)
        ensures
            r == SyslogLevel::of_raw(raw as int),
    {
        match raw {
            0 => SyslogLevel::Emerg,
            1 => SyslogLevel::Alert,
            2 => SyslogLevel::Crit,
            3 => SyslogLevel::Error,
            4 => SyslogLevel::Warn,
            5 => SyslogLevel::Notice,
            7 => SyslogLevel::Debug,
            _ => SyslogLevel::Info,
        }
    }

    /// The level that messages of this level are logged at.
    pub fn level(self) -> (r: Level)
        ensures
            r.0 == self.record_level(),
    {
        match self {
            SyslogLevel::Emerg
            | SyslogLevel::Alert
            | SyslogLevel::Crit
            | SyslogLevel::Error => Level::error(),
            SyslogLevel::Warn => Level::warn(),
            SyslogLevel::Notice | SyslogLevel::Info => Level::info(),
            SyslogLevel::Debug => Level::debug(),
        }
    }

    pub fn name(self) -> (r: &'static str)
        ensures
            r@ == self.name_spec(),
    {
        match self {
            SyslogLevel::Emerg => "emerg",
            SyslogLevel::Alert => "alert",
            SyslogLevel::Crit => "crit",
            SyslogLevel::Error => "err",
            SyslogLevel::Warn => "warning",
            SyslogLevel::Notice => "notice",
            SyslogLevel::Info => "info",
            SyslogLevel::Debug => "debug",
        }
    }
}

/// Logs a message of PHP's own, with the name of its syslog level. No message is an empty one.
pub fn go_log(records: &mut Vec<Record>, message: Option<&[u8]>, level: i32)
    ensures
        record_views(final(records)@) == logged(
            record_views(old(records)@),
            SyslogLevel::of_raw(level as int).record_level(),
            match message {
                Some(message) => message@,
                None => seq![],
            },
            seq![("syslog_level"@, SyslogLevel::of_raw(level as int).name_spec())],
        ),
{
    let syslog_level = SyslogLevel::from_raw(level);
    let text = match message {
        Some(message) => text::to_vec(message),
        None => Vec::new(),
    };
    proof {
        if message is None {
            assert(text@ =~= seq![]);
        }
    }
    log_with_attr(
        records,
        syslog_level.level(),
        text.as_slice(),
        "syslog_level",
        syslog_level.name(),
    );
}

/// The digits of a whole number, with a hyphen before a negative one.
pub open spec fn signed_decimal(n: int) -> Seq<u8> {
    if n < 0 {
        seq![HYPHEN] + text::decimal((-n) as nat)
    } else {
        text::decimal(n as nat)
    }
}

/// The digits of a whole number, with a hyphen before a negative one.
pub fn signed_decimal_string(n: i64) -> (r: String)
    ensures
        encode_utf8(r@) == signed_decimal(n as int),
{
    let mut out: Vec<u8> = Vec::new();
    if n < 0 {
        out.push(HYPHEN);
        let magnitude: u64 = if n == i64::MIN {
            0x8000_0000_0000_0000
        } else {
            (-n) as u64
        };
        let digits = text::decimal_bytes(magnitude);
        text::append(&mut out, digits.as_slice());
        proof {
            text::lemma_decimal_ascii(magnitude as nat);
        }
    } else {
        let digits = text::decimal_bytes(n as u64);
        text::append(&mut out, digits.as_slice());
        proof {
            text::lemma_decimal_ascii(n as nat);
        }
    }
    assert(out@ =~= signed_decimal(n as int));
    proof {
        text::lemma_ascii_valid(out@);
    }
    text::to_string(out)
}

/// The attributes of a record as they stand behind its message.
pub open spec fn attrs_line(attrs: Seq<(Seq<char>, Seq<char>)>) -> Seq<char>
    decreases attrs.len(),
{
    if attrs.len() == 0 {
        seq![]
    } else {
        attrs_line(attrs.drop_last()) + (" "@ + attrs.last().0 + "="@ + escaped(
            encode_utf8(attrs.last().1),
        ))
    }
}

/// A record as one line: its level, its message and its attributes.
pub open spec fn record_line(
    level: int,
    message: Seq<u8>,
    attrs: Seq<(Seq<char>, Seq<char>)>,
) -> Seq<char> {
    "frankenrust[Level("@ + decode_utf8(signed_decimal(level)) + ")]: "@ + escaped(message)
        + attrs_line(attrs)
}

/// A record as one line.
pub fn format_record(record: &Record) -> (r: String)
    ensures
        r@ == record_line(record.level.0 as int, record.message@, attr_views(record.attrs@)),
{
    let mut line = "frankenrust[Level(".to_owned();
    let number = signed_decimal_string(record.level.0);
    proof {
        encode_utf8_decode_utf8(number@);
    }
    line.append(number.as_str());
    line.append(")]: ");
    let message = escape_for_log_line(record.message.as_slice());
    line.append(message.as_str());
    let ghost head = line@;
    let ghost all = attr_views(record.attrs@);
    let mut i: usize = 0;
    proof {
        assert(line@ =~= head + attrs_line(all.take(0)));
    }
    while i < record.attrs.len()
        invariant
            i <= record.attrs@.len(),
            all == attr_views(record.attrs@),
            line@ == head + attrs_line(all.take(i as int)),
        decreases record.attrs@.len() - i,
    {
        let ghost before = line@;
        line.append(" ");
        line.append(record.attrs[i].key);
        line.append("=");
        let value = escape_for_log_line(record.attrs[i].value.as_str().as_bytes());
        line.append(value.as_str());
        proof {
            let next = all.take(i + 1);
            assert(next.drop_last() =~= all.take(i as int));
            assert(next.last() == (record.attrs@[i as int].key@, record.attrs@[i as int].value@));
            assert(line@ =~= head + attrs_line(next));
        }
        i = i + 1;
    }
    assert(all.take(i as int) =~= all);
    line
}

/// A message of PHP is logged by its gravity: errors and worse are errors, a warning is a
/// warning, what is of interest is information, and only what is for finding faults is below
/// that. A graver message is never logged lower, and a number that syslog does not have is
/// information.
pub proof fn lemma_syslog_levels(a: int, b: int)
    ensures
        0 <= a <= 3 ==> SyslogLevel::of_raw(a).record_level() == 8,
        a == 4 ==> SyslogLevel::of_raw(a).record_level() == 4,
        a == 5 || a == 6 ==> SyslogLevel::of_raw(a).record_level() == 0,
        a == 7 ==> SyslogLevel::of_raw(a).record_level() == -4,
        a < 0 || a > 7 ==> SyslogLevel::of_raw(a).record_level() == 0,
        0 <= a <= b <= 7 ==> SyslogLevel::of_raw(a).record_level() >= SyslogLevel::of_raw(
            b,
        ).record_level(),
        0 <= a < b <= 7 ==> SyslogLevel::of_raw(a) != SyslogLevel::of_raw(b),
{
}

/// Records of information and graver ones are kept, as they came, behind those that were kept
/// before; records below that leave no trace.
pub proof fn lemma_records_are_kept(
    records: Seq<(int, Seq<u8>, Seq<(Seq<char>, Seq<char>)>)>,
    level: int,
    message: Seq<u8>,
    attrs: Seq<(Seq<char>, Seq<char>)>,
)
    ensures
        level >= 0 ==> logged(records, level, message, attrs) == records.push(
            (level, message, attrs),
        ),
        level < 0 ==> logged(records, level, message, attrs) == records,
{
}

/// A line is escaped piece by piece: printable ASCII but the backslash stands for itself, line
/// ends, tabs and the backslash have escapes of two characters, and any other byte is written by
/// its two hexadecimal digits.
pub proof fn lemma_escapes(a: Seq<u8>, b: Seq<u8>, byte: u8)
    ensures
        escaped(a + b) == escaped(a) + escaped(b),
        0x20 <= byte <= 0x7e && byte != 0x5c ==> escaped(seq![byte]) == seq![byte as char],
        byte == 0x5c ==> escaped(seq![byte]) == seq!['\\', '\\'],
        byte == 0x0a ==> escaped(seq![byte]) == seq!['\\', 'n'],
        byte == 0x0d ==> escaped(seq![byte]) == seq!['\\', 'r'],
        byte == 0x09 ==> escaped(seq![byte]) == seq!['\\', 't'],
        !(0x20 <= byte <= 0x7e) && byte != 0x0a && byte != 0x0d && byte != 0x09 ==> escaped(
            seq![byte],
        ) == seq![
            '\\',
            'x',
            (if byte / 16 < 10 {
                0x30 + byte / 16
            } else {
                0x57 + byte / 16
            }) as char,
            (if byte % 16 < 10 {
                0x30 + byte % 16
            } else {
                0x57 + byte % 16
            }) as char,
        ],
    decreases a.len(),
{
    let one = seq![byte];
    assert(one.skip(1) =~= seq![]);
    assert(escaped(Seq::<u8>::empty()) =~= seq![]);
    assert(escaped(one) =~= escaped_byte(byte));
    lemma_hex_2(byte as nat);
    assert(quote::hex_escape(byte) =~= seq![
        '\\',
        'x',
        quote::hex_char(byte as nat / 16),
        quote::hex_char(byte as nat % 16),
    ]);
    if a.len() == 0 {
        assert(a + b =~= b);
        assert(escaped(a) + escaped(b) =~= escaped(b));
    } else {
        lemma_escapes(a.skip(1), b, byte);
        assert((a + b).skip(1) =~= a.skip(1) + b);
        assert(escaped(a + b) =~= escaped(a) + escaped(b));
    }
}

/// A whole number is written so that it reads back.
pub proof fn lemma_signed_decimal_reads_back(n: i64)
    ensures
        text::parsed_i64(signed_decimal(n as int)) == Some(n as int),
{
    if n < 0 {
        text::lemma_numbers_are_parsed((-n) as nat, seq![]);
        assert(signed_decimal(n as int) =~= seq![0x2du8] + text::decimal((-n) as nat));
    } else {
        text::lemma_numbers_are_parsed(n as nat, seq![]);
    }
}

/// The attributes stand behind the message in order, each as a space, its key, an equals sign and
/// its value in escapes.
pub proof fn lemma_attributes_follow(
    a: Seq<(Seq<char>, Seq<char>)>,
    b: Seq<(Seq<char>, Seq<char>)>,
)
    ensures
        attrs_line(a + b) == attrs_line(a) + attrs_line(b),
        a.len() == 1 ==> attrs_line(a) == seq![' '] + a[0].0 + seq!['='] + escaped(
            encode_utf8(a[0].1),
        ),
        attrs_line(Seq::<(Seq<char>, Seq<char>)>::empty()) == Seq::<char>::empty(),
    decreases b.len(),
{
    reveal_strlit(" ");
    reveal_strlit("=");
    if a.len() == 1 {
        assert(a.drop_last() =~= seq![]);
        assert(attrs_line(a.drop_last()) =~= seq![]);
        assert(attrs_line(a) =~= seq![' '] + a[0].0 + seq!['='] + escaped(encode_utf8(a[0].1)));
    }
    if b.len() == 0 {
        assert(a + b =~= a);
        assert(attrs_line(a) + attrs_line(b) =~= attrs_line(a));
    } else {
        lemma_attributes_follow(a, b.drop_last());
        assert((a + b).drop_last() =~= a + b.drop_last());
        assert((a + b).last() == b.last());
        assert(attrs_line(a + b) =~= attrs_line(a) + attrs_line(b));
    }
}

/// A message of PHP is kept as it came, at the level of its gravity, unless it is only for
/// finding faults.
pub proof fn lemma_messages_are_logged(
    records: &mut Vec<Record>,
    message: Option<&[u8]>,
    level: i32,
)
    requires
        call_ensures(go_log, (records, message, level), ()),
    ensures
        ({
            let before = record_views(old(records)@);
            let after = record_views(final(records)@);
            &&& level == 7 ==> after == before
            &&& level != 7 ==> after.len() == before.len() + 1 && after.drop_last() == before
            &&& 0 <= level <= 3 ==> after.last().0 == 8
            &&& level == 4 ==> after.last().0 == 4
            &&& level < 0 || level == 5 || level == 6 || level > 7 ==> after.last().0 == 0
            &&& level != 7 ==> after.last().1 == (match message {
                Some(bytes) => bytes@,
                None => seq![],
            })
        }),
{
    lemma_syslog_levels(level as int, level as int);
    let before = record_views(old(records)@);
    let after = record_views(final(records)@);
    if level != 7 {
        assert(after.drop_last() =~= before);
    }
}

} // verus!
