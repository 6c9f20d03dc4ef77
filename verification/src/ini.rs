//! The settings that override php.ini.
use vstd::prelude::*;
use vstd::utf8::*;

use crate::text;
use crate::text::EQUALS;

verus! {

/// The byte that ends a line.
pub const NEWLINE: u8 = 10;

/// The settings with one more, which takes the place of the one with its key.
pub open spec fn with_setting(
    settings: Seq<(Seq<char>, Seq<char>)>,
    key: Seq<char>,
    value: Seq<char>,
) -> Seq<(Seq<char>, Seq<char>)>
    decreases settings.len(),
{
    if settings.len() == 0 {
        seq![(key, value)]
    } else if settings[0].0 == key {
        settings.update(0, (key, value))
    } else {
        seq![settings[0]] + with_setting(settings.skip(1), key, value)
    }
}

/// The value of a key.
pub open spec fn setting(settings: Seq<(Seq<char>, Seq<char>)>, key: Seq<char>) -> Option<Seq<char>>
    decreases settings.len(),
{
    if settings.len() == 0 {
        None
    } else if settings[0].0 == key {
        Some(settings[0].1)
    } else {
        setting(settings.skip(1), key)
    }
}

/// Whether no key occurs twice.
pub open spec fn distinct_keys(settings: Seq<(Seq<char>, Seq<char>)>) -> bool {
    forall|i: int, j: int|
        0 <= i < j < settings.len() ==> (#[trigger] settings[i]).0 != (#[trigger] settings[j]).0
}

/// A setting that was made is read back, and no other is changed by it.
pub proof fn lemma_setting_read_back(
    settings: Seq<(Seq<char>, Seq<char>)>,
    key: Seq<char>,
    value: Seq<char>,
    other: Seq<char>,
)
    ensures
        setting(with_setting(settings, key, value), key) == Some(value),
        other != key ==> setting(with_setting(settings, key, value), other) == setting(
            settings,
            other,
        ),
    decreases settings.len(),
{
    let after = with_setting(settings, key, value);
    if settings.len() == 0 {
        assert(setting(after.skip(1), other) is None);
    } else if settings[0].0 == key {
        assert(after.skip(1) =~= settings.skip(1));
    } else {
        lemma_setting_read_back(settings.skip(1), key, value, other);
        assert(after.skip(1) =~= with_setting(settings.skip(1), key, value));
    }
}

proof fn lemma_with_setting_at(
    settings: Seq<(Seq<char>, Seq<char>)>,
    key: Seq<char>,
    value: Seq<char>,
    i: int,
)
    requires
        0 <= i < settings.len(),
        settings[i].0 == key,
        forall|k: int| 0 <= k < i ==> #[trigger] settings[k].0 != key,
    ensures
        with_setting(settings, key, value) == settings.update(i, (key, value)),
    decreases settings.len(),
{
    if i > 0 {
        let rest = settings.skip(1);
        assert forall|k: int| 0 <= k < i - 1 implies #[trigger] rest[k].0 != key by {
            assert(settings[k + 1].0 != key);
        }
        assert(settings[0].0 != key);
        lemma_with_setting_at(rest, key, value, i - 1);
        assert(with_setting(settings, key, value) =~= settings.update(i, (key, value)));
    }
}

proof fn lemma_with_setting_last(
    settings: Seq<(Seq<char>, Seq<char>)>,
    key: Seq<char>,
    value: Seq<char>,
)
    requires
        forall|k: int| 0 <= k < settings.len() ==> #[trigger] settings[k].0 != key,
    ensures
        with_setting(settings, key, value) == settings.push((key, value)),
    decreases settings.len(),
{
    if settings.len() > 0 {
        let rest = settings.skip(1);
        assert forall|k: int| 0 <= k < rest.len() implies #[trigger] rest[k].0 != key by {
            assert(settings[k + 1].0 != key);
        }
        assert(settings[0].0 != key);
        lemma_with_setting_last(rest, key, value);
    }
    assert(with_setting(settings, key, value) =~= settings.push((key, value)));
}

/// Settings by their keys. No key occurs twice.
#[derive(Debug)]
pub struct PhpIni {
    entries: Vec<(String, String)>,
}

impl View for PhpIni {
    type V = Seq<(Seq<char>, Seq<char>)>;

    closed spec fn view(&self) -> Seq<(Seq<char>, Seq<char>)> {
        self.entries@.map_values(|e: (String, String)| (e.0@, e.1@))
    }
}

impl PhpIni {
    #[verifier::type_invariant]
    spec fn inv(&self) -> bool {
        distinct_keys(self@)
    }

    /// No settings.
    pub fn new() -> (r: Self)
        ensures
            r@ == Seq::<(Seq<char>, Seq<char>)>::empty(),
    {
        let entries: Vec<(String, String)> = Vec::new();
        proof {
            assert(PhpIni { entries }@ =~= seq![]);
        }
        PhpIni { entries }
    }

    /// Sets a key.
    pub fn insert(&mut self, key: &str, value: &str)
        ensures
            final(self)@ == with_setting(old(self)@, key@, value@),
            distinct_keys(final(self)@),
    {
        proof {
            use_type_invariant(&*self);
        }
        let mut entries: Vec<(String, String)> = Vec::new();
        std::mem::swap(&mut entries, &mut self.entries);
        let ghost before = old(self)@;
        let n: usize = entries.len();
        let mut i: usize = 0;
        while i < n && !text::same_str(entries[i].0.as_str(), key)
            invariant
                n == entries@.len(),
                i <= n,
                before == entries@.map_values(|e: (String, String)| (e.0@, e.1@)),
                forall|k: int| 0 <= k < i ==> #[trigger] before[k].0 != key@,
            decreases n - i,
        {
            assert(before[i as int].0 == entries@[i as int].0@);
            i = i + 1;
        }
        if i < n {
            assert(before[i as int].0 == entries@[i as int].0@);
            proof {
                lemma_with_setting_at(before, key@, value@, i as int);
            }
            entries[i] = (key.to_owned(), value.to_owned());
            assert(entries@.map_values(|e: (String, String)| (e.0@, e.1@)) =~= before.update(
                i as int,
                (key@, value@),
            ));
        } else {
            proof {
                lemma_with_setting_last(before, key@, value@);
            }
            entries.push((key.to_owned(), value.to_owned()));
            assert(entries@.map_values(|e: (String, String)| (e.0@, e.1@)) =~= before.push(
                (key@, value@),
            ));
        }
        self.entries = entries;
    }

    /// The value of a key.
    pub fn get(&self, key: &str) -> (r: Option<&str>)
        ensures
            match r {
                Some(value) => setting(self@, key@) == Some(value@),
                None => setting(self@, key@) is None,
            },
    {
        let n: usize = self.entries.len();
        let mut i: usize = 0;
        assert(self@.skip(0) =~= self@);
        while i < n
            invariant
                n == self.entries@.len(),
                n == self@.len(),
                i <= n,
                setting(self@, key@) == setting(self@.skip(i as int), key@),
            decreases n - i,
        {
            assert(self@.skip(i as int)[0] == self@[i as int]);
            assert(self@.skip(i as int).skip(1) =~= self@.skip(i + 1));
            if text::same_str(self.entries[i].0.as_str(), key) {
                return Some(self.entries[i].1.as_str());
            }
            i = i + 1;
        }
        None
    }

    /// The settings as lines, with a NUL behind; nothing where memory could not hold them.
    pub fn render(&self) -> (r: Option<Vec<u8>>)
        ensures
            match r {
                Some(bytes) => bytes@ == rendered(self@).push(0),
                None => rendered(self@).len() + 1 > usize::MAX,
            },
    {
        let mut room: usize = 1;
        let mut i: usize = 0;
        let ghost all = self@;
        assert(rendered(all.take(0)).len() == 0);
        while i < self.entries.len()
            invariant
                i <= self.entries@.len(),
                all == self@,
                all.len() == self.entries@.len(),
                room == 1 + rendered(all.take(i as int)).len(),
            decreases self.entries@.len() - i,
        {
            proof {
                assert(all.take(i + 1).drop_last() =~= all.take(i as int));
                assert(all.take(i + 1).last() == all[i as int]);
                lemma_rendered_grows(all, i + 1);
            }
            let key_len: usize = self.entries[i].0.as_str().as_bytes().len();
            let value_len: usize = self.entries[i].1.as_str().as_bytes().len();
            room = match room.checked_add(key_len) {
                Some(sum) => sum,
                None => return None,
            };
            room = match room.checked_add(value_len) {
                Some(sum) => sum,
                None => return None,
            };
            room = match room.checked_add(2) {
                Some(sum) => sum,
                None => return None,
            };
            i = i + 1;
        }
        let mut out: Vec<u8> = Vec::with_capacity(room);
        i = 0;
        assert(out@ =~= rendered(all.take(0)));
        while i < self.entries.len()
            invariant
                i <= self.entries@.len(),
                all == self@,
                all.len() == self.entries@.len(),
                out@ == rendered(all.take(i as int)),
            decreases self.entries@.len() - i,
        {
            proof {
                assert(all.take(i + 1).drop_last() =~= all.take(i as int));
                assert(all.take(i + 1).last() == all[i as int]);
            }
            text::append(&mut out, self.entries[i].0.as_str().as_bytes());
            out.push(EQUALS);
            text::append(&mut out, self.entries[i].1.as_str().as_bytes());
            out.push(NEWLINE);
            assert(out@ =~= rendered(all.take(i + 1)));
            i = i + 1;
        }
        assert(all.take(i as int) =~= all);
        out.push(0);
        Some(out)
    }
}

/// A line `key=value` for each setting.
pub open spec fn rendered(settings: Seq<(Seq<char>, Seq<char>)>) -> Seq<u8>
    decreases settings.len(),
{
    if settings.len() == 0 {
        seq![]
    } else {
        let (key, value) = settings.last();
        (rendered(settings.drop_last()) + encode_utf8(key)).push(EQUALS) + encode_utf8(value).push(
            NEWLINE,
        )
    }
}

proof fn lemma_rendered_grows(settings: Seq<(Seq<char>, Seq<char>)>, i: int)
    requires
        0 <= i <= settings.len(),
    ensures
        rendered(settings.take(i)).len() <= rendered(settings).len(),
    decreases settings.len(),
{
    if i == settings.len() {
        assert(settings.take(i) =~= settings);
    } else {
        lemma_rendered_grows(settings.drop_last(), i);
        assert(settings.drop_last().take(i) =~= settings.take(i));
    }
}

/// The settings are written out one line each, in order: the key, an equals sign, the value and
/// the end of the line.
pub proof fn lemma_settings_are_written_out(
    a: Seq<(Seq<char>, Seq<char>)>,
    b: Seq<(Seq<char>, Seq<char>)>,
)
    ensures
        rendered(Seq::<(Seq<char>, Seq<char>)>::empty()) == Seq::<u8>::empty(),
        rendered(a + b) == rendered(a) + rendered(b),
        a.len() == 1 ==> rendered(a) == encode_utf8(a[0].0) + seq![0x3du8] + encode_utf8(a[0].1)
            + seq![0x0au8],
    decreases b.len(),
{
    if a.len() == 1 {
        assert(a.drop_last() =~= seq![]);
        assert(rendered(a.drop_last()) =~= seq![]);
        assert(rendered(a) =~= encode_utf8(a[0].0) + seq![0x3du8] + encode_utf8(a[0].1) + seq![
            0x0au8,
        ]);
    }
    if b.len() == 0 {
        assert(a + b =~= a);
        assert(rendered(a) + rendered(b) =~= rendered(a));
    } else {
        lemma_settings_are_written_out(a, b.drop_last());
        assert((a + b).drop_last() =~= a + b.drop_last());
        assert((a + b).last() == b.last());
        assert(rendered(a + b) =~= rendered(a) + rendered(b));
    }
}

} // verus!
