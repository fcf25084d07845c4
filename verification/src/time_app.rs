//! The time window's state: three fields that show one instant (Unix
//! seconds, Unix milliseconds, local date and time), the chosen zone, and
//! what each edit and button does to them. The toolkit draws the state.

use vstd::prelude::*;
use crate::text::{
    all_ws, i64_to_decimal, parse_i64, parsed_i64, signed_decimal, trim, trimmed,
};
use crate::time_convert::{
    conversion_of, datetime_always_read, datetime_never_read, datetime_reads_as, from_datetime,
    instant_millis, instant_of_millis, local_text_of, valid_instant, Instant, ZoneChoice, ZoneMark, MAX_SECOND,
    MIN_SECOND, TIMEZONE_COUNT,
};

verus! {

broadcast use vstd::string::group_string_axioms;

/// Shown under a field left empty.
pub open spec fn empty_field_message() -> Seq<char> {
    "这一栏是空的\n输入一个值，或点「现在」填入当前时间。"@
}

/// Shown under seconds that are no Unix time.
pub open spec fn bad_seconds_message() -> Seq<char> {
    "秒数无效。输入 Unix 秒，或点「现在」。"@
}

/// Shown under milliseconds that are no Unix time.
pub open spec fn bad_millis_message() -> Seq<char> {
    "毫秒无效。输入 Unix 毫秒，或点「现在」。"@
}

/// Shown under a date and time that could not be read.
pub open spec fn bad_local_message() -> Seq<char> {
    "时间格式无效。按 年-月-日 时:分:秒 填写，或点「现在」。"@
}

fn owned(s: &str) -> (r: String)
    ensures
        r@ == s@,
{
    s.to_owned()
}

/// What the time window shows.
pub struct TimeView {
    pub tz_index: usize,
    pub seconds: String,
    pub millis: String,
    pub local: String,
    pub sec_ok: bool,
    pub ms_ok: bool,
    pub local_ok: bool,
    pub error_seconds: String,
    pub error_millis: String,
    pub error_local: String,
    pub sec_copied: bool,
    pub ms_copied: bool,
    pub local_copied: bool,
    /// The zone option the local field was last shown in by a conversion;
    /// none before the first.
    pub local_zone: Option<ZoneMark>,
}

/// The local field of `v` was last shown in zone option `k`.
pub open spec fn shown_in(v: TimeView, k: usize) -> bool {
    v.local_zone matches Some(m) && m.option() == k
}

/// Whether the three fields show instant `i`: seconds and milliseconds as
/// decimal numerals, the local date and time of `i` (at the offset its zone
/// has then), every field marked good, no error shown.
pub open spec fn shows(v: TimeView, i: Instant) -> bool {
    &&& v.seconds@ == signed_decimal(i.second as int)
    &&& v.millis@ == signed_decimal(instant_millis(i))
    &&& local_text_of(v.local@, i)
    &&& v.sec_ok && v.ms_ok && v.local_ok
    &&& v.error_seconds@.len() == 0 && v.error_millis@.len() == 0 && v.error_local@.len() == 0
}

/// Whether the copy marks and the zone are as before.
pub open spec fn same_marks(a: TimeView, b: TimeView) -> bool {
    a.tz_index == b.tz_index && a.sec_copied == b.sec_copied && a.ms_copied == b.ms_copied
        && a.local_copied == b.local_copied
}

/// Whether the three fields, their marks and their messages are as before.
pub open spec fn same_fields(a: TimeView, b: TimeView) -> bool {
    &&& a.seconds == b.seconds && a.millis == b.millis && a.local == b.local
    &&& a.sec_ok == b.sec_ok && a.ms_ok == b.ms_ok && a.local_ok == b.local_ok
    &&& a.error_seconds == b.error_seconds && a.error_millis == b.error_millis && a.error_local == b.error_local
    &&& a.local_zone == b.local_zone
}

/// Only the seconds field changed: it holds `val` and is flagged with
/// `msg`; the other fields, their marks and messages stay.
pub open spec fn seconds_flagged(before: TimeView, after: TimeView, val: Seq<char>, msg: Seq<char>) -> bool {
    &&& after.seconds@ == val && !after.sec_ok && after.error_seconds@ == msg
    &&& after.millis == before.millis && after.local == before.local
    &&& after.ms_ok == before.ms_ok && after.local_ok == before.local_ok
    &&& after.error_millis == before.error_millis && after.error_local == before.error_local
    &&& after.local_zone == before.local_zone
}

/// Only the milliseconds field changed: it holds `val` and is flagged with
/// `msg`; the other fields, their marks and messages stay.
pub open spec fn millis_flagged(before: TimeView, after: TimeView, val: Seq<char>, msg: Seq<char>) -> bool {
    &&& after.millis@ == val && !after.ms_ok && after.error_millis@ == msg
    &&& after.seconds == before.seconds && after.local == before.local
    &&& after.sec_ok == before.sec_ok && after.local_ok == before.local_ok
    &&& after.error_seconds == before.error_seconds && after.error_local == before.error_local
    &&& after.local_zone == before.local_zone
}

/// Only the local field changed: it holds `val` and is flagged with `msg`;
/// the other fields, their marks and messages stay.
pub open spec fn local_flagged(before: TimeView, after: TimeView, val: Seq<char>, msg: Seq<char>) -> bool {
    &&& after.local@ == val && !after.local_ok && after.error_local@ == msg
    &&& after.seconds == before.seconds && after.millis == before.millis
    &&& after.sec_ok == before.sec_ok && after.ms_ok == before.ms_ok
    &&& after.error_seconds == before.error_seconds && after.error_millis == before.error_millis
    &&& after.local_zone == before.local_zone
}

/// The second that a seconds field names, where it names one in jiff's
/// range.
pub open spec fn seconds_in_field(field: Seq<char>) -> Option<i64> {
    match parsed_i64(trim(field)) {
        Some(n) => if MIN_SECOND <= n <= MAX_SECOND { Some(n) } else { None },
        None => None,
    }
}

/// The millisecond that a milliseconds field names, where it names one in
/// jiff's range.
pub open spec fn millis_in_field(field: Seq<char>) -> Option<i64> {
    match parsed_i64(trim(field)) {
        Some(n) => if MIN_SECOND * 1000 <= n <= MAX_SECOND * 1000 { Some(n) } else { None },
        None => None,
    }
}

impl TimeView {
    fn show(&mut self, c: (i64, i64, String), mark: ZoneMark)
        ensures
            shown_in(*final(self), mark.option()),
            final(self).seconds@ == signed_decimal(c.0 as int) && final(self).millis@ == signed_decimal(c.1 as int),
            final(self).local@ == c.2@,
            final(self).sec_ok && final(self).ms_ok && final(self).local_ok,
            final(self).error_seconds@.len() == 0 && final(self).error_millis@.len() == 0,
            final(self).error_local@.len() == 0,
            same_marks(*final(self), *old(self)),
    {
        self.seconds = i64_to_decimal(c.0);
        self.millis = i64_to_decimal(c.1);
        self.local = c.2;
        self.sec_ok = true;
        self.ms_ok = true;
        self.local_ok = true;
        self.error_seconds = String::new();
        self.error_millis = String::new();
        self.error_local = String::new();
        self.local_zone = Some(mark);
    }

    /// The window as it opens: the local zone, showing the current time; all
    /// fields empty where the clock lies outside jiff's range.
    pub fn new() -> (r: TimeView)
        ensures
            r.tz_index == 0,
            (exists|i: Instant| valid_instant(i) && #[trigger] shows(r, i)) && shown_in(r, 0) || (r.seconds@.len() == 0
                && r.millis@.len() == 0 && r.local@.len() == 0 && !r.sec_ok && !r.ms_ok && !r.local_ok),
            !r.sec_copied && !r.ms_copied && !r.local_copied,
    {
        let zone = ZoneChoice::of_index(0);
        let mut v = TimeView {
            tz_index: 0,
            seconds: String::new(),
            millis: String::new(),
            local: String::new(),
            sec_ok: false,
            ms_ok: false,
            local_ok: false,
            error_seconds: String::new(),
            error_millis: String::new(),
            error_local: String::new(),
            sec_copied: false,
            ms_copied: false,
            local_copied: false,
            local_zone: None,
        };
        match zone.now() {
            Ok((c, mark)) => {
                let ghost i = choose|i: Instant| valid_instant(i) && conversion_of(c, i);
                v.show(c, mark);
                assert(valid_instant(i) && shows(v, i));
            },
            Err(_) => {},
        }
        v
    }

    /// The "now" button: the current time in the chosen zone; nothing
    /// changes where the clock lies outside jiff's range.
    pub fn now_clicked(&mut self)
        ensures
            (exists|i: Instant| valid_instant(i) && #[trigger] shows(*final(self), i)) && shown_in(
                *final(self),
                old(self).tz_index,
            ) || same_fields(
                *final(self),
                *old(self),
            ),
            same_marks(*final(self), *old(self)),
    {
        let zone = ZoneChoice::of_index(self.tz_index);
        match zone.now() {
            Ok((c, mark)) => {
                let ghost i = choose|i: Instant| valid_instant(i) && conversion_of(c, i);
                self.show(c, mark);
                assert(valid_instant(i) && shows(*self, i));
            },
            Err(_) => {},
        }
    }

    /// The seconds field was edited to `val`: an empty field is flagged;
    /// seconds that jiff represents fill all three fields; anything else is
    /// flagged as invalid.
    pub fn seconds_edited(&mut self, val: &str)
        ensures
            same_marks(*final(self), *old(self)),
            trim(val@).len() == 0 ==> seconds_flagged(*old(self), *final(self), val@, empty_field_message()),
            trim(val@).len() > 0 ==> match seconds_in_field(val@) {
                Some(n) => shows(*final(self), Instant { second: n, nanosecond: 0 }) && shown_in(
                    *final(self),
                    old(self).tz_index,
                ),
                None => seconds_flagged(*old(self), *final(self), val@, bad_seconds_message()),
            },
    {
        self.seconds = owned(val);
        let t = trimmed(val);
        if t.as_str().is_empty() {
            self.error_seconds = owned("这一栏是空的\n输入一个值，或点「现在」填入当前时间。");
            self.sec_ok = false;
            return;
        }
        let zone = ZoneChoice::of_index(self.tz_index);
        match parse_i64(t.as_str()) {
            Some(n) => match zone.seconds(n) {
                Ok((c, mark)) => {
                    self.show(c, mark);
                    assert(shows(*self, Instant { second: n, nanosecond: 0 }));
                    return;
                },
                Err(_) => {},
            },
            None => {},
        }
        self.error_seconds = owned("秒数无效。输入 Unix 秒，或点「现在」。");
        self.sec_ok = false;
    }

    /// The milliseconds field was edited to `val`, as [`Self::seconds_edited`].
    pub fn millis_edited(&mut self, val: &str)
        ensures
            same_marks(*final(self), *old(self)),
            trim(val@).len() == 0 ==> millis_flagged(*old(self), *final(self), val@, empty_field_message()),
            trim(val@).len() > 0 ==> match millis_in_field(val@) {
                Some(n) => shows(*final(self), instant_of_millis(n as int)) && shown_in(
                    *final(self),
                    old(self).tz_index,
                ),
                None => millis_flagged(*old(self), *final(self), val@, bad_millis_message()),
            },
    {
        self.millis = owned(val);
        let t = trimmed(val);
        if t.as_str().is_empty() {
            self.error_millis = owned("这一栏是空的\n输入一个值，或点「现在」填入当前时间。");
            self.ms_ok = false;
            return;
        }
        let zone = ZoneChoice::of_index(self.tz_index);
        match parse_i64(t.as_str()) {
            Some(n) => match zone.millis(n) {
                Ok((c, mark)) => {
                    self.show(c, mark);
                    assert(shows(*self, instant_of_millis(n as int)));
                    return;
                },
                Err(_) => {},
            },
            None => {},
        }
        self.error_millis = owned("毫秒无效。输入 Unix 毫秒，或点「现在」。");
        self.ms_ok = false;
    }

    /// The local field was edited to `val`: an empty field is flagged; a
    /// date and time that reads (see [`from_datetime`]) fills all three
    /// fields; anything else is flagged as invalid. Text that every zone
    /// reads is never flagged, and text that no zone reads always is.
    pub fn local_edited(&mut self, val: &str)
        ensures
            same_marks(*final(self), *old(self)),
            trim(val@).len() == 0 ==> local_flagged(*old(self), *final(self), val@, empty_field_message()),
            trim(val@).len() > 0 ==> {
                ||| (exists|i: Instant|
                    valid_instant(i) && #[trigger] shows(*final(self), i) && datetime_reads_as(trim(val@), i))
                    && shown_in(*final(self), old(self).tz_index) && !datetime_never_read(trim(val@))
                ||| local_flagged(*old(self), *final(self), val@, bad_local_message()) && !datetime_always_read(
                    trim(val@),
                )
            },
    {
        self.local = owned(val);
        let t = trimmed(val);
        if t.as_str().is_empty() {
            self.error_local = owned("这一栏是空的\n输入一个值，或点「现在」填入当前时间。");
            self.local_ok = false;
            return;
        }
        let zone = ZoneChoice::of_index(self.tz_index);
        proof {
            crate::text::lemma_trim_idempotent(val@);
        }
        match zone.datetime(t.as_str()) {
            Ok((c, mark)) => {
                let ghost i = choose|i: Instant|
                    valid_instant(i) && conversion_of(c, i) && datetime_reads_as(trim(t@), i);
                self.show(c, mark);
                assert(valid_instant(i) && shows(*self, i) && datetime_reads_as(trim(val@), i));
            },
            Err(_) => {
                self.error_local = owned("时间格式无效。按 年-月-日 时:分:秒 填写，或点「现在」。");
                self.local_ok = false;
            },
        }
    }

    /// Another zone was chosen: the local field shows the instant of the
    /// seconds field, or else of the milliseconds field, in that zone, where
    /// either reads as a Unix time; otherwise the fields stay as they are.
    pub fn tz_changed(&mut self, index: usize)
        ensures
            final(self).tz_index == index,
            final(self).seconds == old(self).seconds && final(self).millis == old(self).millis,
            final(self).sec_ok == old(self).sec_ok && final(self).ms_ok == old(self).ms_ok,
            final(self).error_seconds == old(self).error_seconds && final(self).error_millis == old(self).error_millis,
            final(self).sec_copied == old(self).sec_copied && final(self).ms_copied == old(self).ms_copied,
            final(self).local_copied == old(self).local_copied,
            match seconds_in_field(old(self).seconds@) {
                Some(n) => local_text_of(final(self).local@, Instant { second: n, nanosecond: 0 })
                    && shown_in(*final(self), index) && final(self).local_ok && final(self).error_local@.len() == 0,
                None => match millis_in_field(old(self).millis@) {
                    Some(n) => local_text_of(final(self).local@, instant_of_millis(n as int))
                        && shown_in(*final(self), index) && final(self).local_ok && final(self).error_local@.len()
                        == 0,
                    None => final(self).local == old(self).local && final(self).local_ok == old(self).local_ok
                        && final(self).error_local == old(self).error_local && final(self).local_zone
                        == old(self).local_zone,
                },
            },
    {
        self.tz_index = index;
        let zone = ZoneChoice::of_index(index);
        let s = trimmed(self.seconds.as_str());
        if let Some(n) = parse_i64(s.as_str()) {
            if let Ok((c, mark)) = zone.seconds(n) {
                self.local = c.2;
                self.local_ok = true;
                self.error_local = String::new();
                self.local_zone = Some(mark);
                return;
            }
        }
        let m = trimmed(self.millis.as_str());
        if let Some(n) = parse_i64(m.as_str()) {
            if let Ok((c, mark)) = zone.millis(n) {
                self.local = c.2;
                self.local_ok = true;
                self.error_local = String::new();
                self.local_zone = Some(mark);
            }
        }
    }

    /// The copy button of the seconds field: its trimmed text, where that is
    /// a number; the field then shows that it copied.
    pub fn copy_seconds(&mut self) -> (r: Option<String>)
        ensures
            parsed_i64(trim(old(self).seconds@)) is Some ==> (r matches Some(t) && t@ == trim(old(self).seconds@)
                && final(self).sec_copied),
            parsed_i64(trim(old(self).seconds@)) is None ==> r is None && final(self).sec_copied == old(self).sec_copied,
            final(self).seconds == old(self).seconds && final(self).millis == old(self).millis,
            final(self).local == old(self).local && final(self).ms_copied == old(self).ms_copied,
            final(self).local_copied == old(self).local_copied && final(self).tz_index == old(self).tz_index,
    {
        let t = trimmed(self.seconds.as_str());
        match parse_i64(t.as_str()) {
            Some(_) => {
                self.sec_copied = true;
                Some(t)
            },
            None => None,
        }
    }

    /// The copy button of the milliseconds field, as [`Self::copy_seconds`].
    pub fn copy_millis(&mut self) -> (r: Option<String>)
        ensures
            parsed_i64(trim(old(self).millis@)) is Some ==> (r matches Some(t) && t@ == trim(old(self).millis@)
                && final(self).ms_copied),
            parsed_i64(trim(old(self).millis@)) is None ==> r is None && final(self).ms_copied == old(self).ms_copied,
            final(self).seconds == old(self).seconds && final(self).millis == old(self).millis,
            final(self).local == old(self).local && final(self).sec_copied == old(self).sec_copied,
            final(self).local_copied == old(self).local_copied && final(self).tz_index == old(self).tz_index,
    {
        let t = trimmed(self.millis.as_str());
        match parse_i64(t.as_str()) {
            Some(_) => {
                self.ms_copied = true;
                Some(t)
            },
            None => None,
        }
    }

    /// The copy button of the local field: its trimmed text, where that is
    /// not empty.
    pub fn copy_local(&mut self) -> (r: Option<String>)
        ensures
            trim(old(self).local@).len() > 0 ==> (r matches Some(t) && t@ == trim(old(self).local@)
                && final(self).local_copied),
            trim(old(self).local@).len() == 0 ==> r is None && final(self).local_copied == old(self).local_copied,
            final(self).seconds == old(self).seconds && final(self).millis == old(self).millis,
            final(self).local == old(self).local && final(self).sec_copied == old(self).sec_copied,
            final(self).ms_copied == old(self).ms_copied && final(self).tz_index == old(self).tz_index,
    {
        let t = trimmed(self.local.as_str());
        if t.as_str().is_empty() {
            return None;
        }
        self.local_copied = true;
        Some(t)
    }

    /// The copy confirmations timed out.
    pub fn copies_expired(&mut self)
        ensures
            !final(self).sec_copied && !final(self).ms_copied && !final(self).local_copied,
            final(self).seconds == old(self).seconds && final(self).millis == old(self).millis,
            final(self).local == old(self).local && final(self).tz_index == old(self).tz_index,
    {
        self.sec_copied = false;
        self.ms_copied = false;
        self.local_copied = false;
    }
}

/// Once the fields show an instant, the copy buttons of the number fields
/// copy exactly the numbers shown.
pub proof fn lemma_shown_numbers_copy(v: TimeView, i: Instant, s: i64, ms: i64)
    requires
        shows(v, i),
        i.second == s,
        instant_millis(i) == ms,
    ensures
        parsed_i64(trim(v.seconds@)) == Some(s),
        trim(v.seconds@) == v.seconds@,
        parsed_i64(trim(v.millis@)) == Some(ms),
        trim(v.millis@) == v.millis@,
{
    crate::text::lemma_numeral_untrimmed(s as int);
    crate::text::lemma_numeral_untrimmed(ms as int);
    crate::text::lemma_parse_reads_numeral(s);
    crate::text::lemma_parse_reads_numeral(ms);
}

} // verus!
