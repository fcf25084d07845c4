//! Timestamp conversion of the time tool: Unix seconds, Unix milliseconds,
//! and the local date and time in a chosen time zone. Time zones, the
//! calendar and the text formats are jiff's.

use vstd::prelude::*;
use crate::text::{contains, decimal, trim, trimmed};

verus! {

#[verifier::external_type_specification]
#[verifier::external_body]
pub struct ExTimeZone(jiff::tz::TimeZone);

#[verifier::external_type_specification]
#[verifier::external_body]
pub struct ExOffset(jiff::tz::Offset);

#[verifier::external_type_specification]
#[verifier::external_body]
pub struct ExJiffError(jiff::Error);

/// Local display: space, no `T`, no `Z`, millisecond fraction.
pub const LOCAL_FMT: &'static str = "%Y-%m-%d %H:%M:%S%.3f";

/// Local input without the fraction.
pub const SECOND_FMT: &'static str = "%Y-%m-%d %H:%M:%S";

/// Earliest Unix second that jiff represents.
pub const MIN_SECOND: i64 = -377705023201;

/// Latest Unix second that jiff represents.
pub const MAX_SECOND: i64 = 253402207200;

/// An instant as jiff holds it: whole seconds since the Unix epoch and a
/// nanosecond part of the same sign.
#[derive(Clone, Copy, Debug, PartialEq, Eq, Structural)]
pub struct Instant {
    pub second: i64,
    pub nanosecond: i32,
}

/// An instant that jiff can represent, in jiff's own normal form.
pub open spec fn valid_instant(i: Instant) -> bool {
    &&& MIN_SECOND <= i.second <= MAX_SECOND
    &&& -999_999_999 <= i.nanosecond <= 999_999_999
    &&& i.second == MIN_SECOND ==> i.nanosecond >= 0
    &&& i.second < 0 ==> i.nanosecond <= 0
    &&& i.second > 0 ==> i.nanosecond >= 0
}

/// Integer division rounding toward zero, as Rust divides.
pub open spec fn tdiv(a: int, d: int) -> int {
    if a >= 0 {
        a / d
    } else {
        -((-a) / d)
    }
}

/// The remainder of [`tdiv`], with the sign of `a`.
pub open spec fn trem(a: int, d: int) -> int {
    a - d * tdiv(a, d)
}

/// Whole milliseconds of an instant, the fraction cut toward zero.
pub open spec fn instant_millis(i: Instant) -> int {
    i.second * 1000 + tdiv(i.nanosecond as int, 1_000_000)
}

/// The instant `ms` milliseconds after the epoch.
pub open spec fn instant_of_millis(ms: int) -> Instant {
    Instant { second: tdiv(ms, 1000) as i64, nanosecond: (trem(ms, 1000) * 1_000_000) as i32 }
}

/// `Timestamp::from_second`, as plain values. jiff's documentation and
/// source: it fails exactly outside jiff's range, and otherwise holds the
/// second with no fraction.
#[verifier::external_body]
fn timestamp_from_second(second: i64) -> (r: Result<Instant, jiff::Error>)
    ensures
        r is Ok <==> MIN_SECOND <= second <= MAX_SECOND,
        r matches Ok(i) ==> i == (Instant { second, nanosecond: 0 }),
{
    match jiff::Timestamp::from_second(second) {
        Ok(t) => Ok(Instant { second: t.as_second(), nanosecond: t.subsec_nanosecond() }),
        Err(e) => Err(e),
    }
}

/// `Timestamp::from_millisecond`, as plain values. jiff's documentation and
/// source: it fails exactly outside jiff's range (whole seconds of that
/// range, in milliseconds), and otherwise splits the milliseconds, rounding
/// toward zero, into seconds and a nanosecond part.
#[verifier::external_body]
fn timestamp_from_millisecond(ms: i64) -> (r: Result<Instant, jiff::Error>)
    ensures
        r is Ok <==> MIN_SECOND * 1000 <= ms <= MAX_SECOND * 1000,
        r matches Ok(i) ==> i == instant_of_millis(ms as int),
{
    match jiff::Timestamp::from_millisecond(ms) {
        Ok(t) => Ok(Instant { second: t.as_second(), nanosecond: t.subsec_nanosecond() }),
        Err(e) => Err(e),
    }
}

/// `Timestamp::try_from(SystemTime::now())`, as plain values: the clock's
/// instant, or jiff's error where the clock lies outside jiff's range. Which
/// instant depends on the clock; one that jiff produces is in its normal
/// form.
#[verifier::external_body]
fn timestamp_now() -> (r: Result<Instant, jiff::Error>)
    ensures
        r matches Ok(i) ==> valid_instant(i),
{
    match jiff::Timestamp::try_from(std::time::SystemTime::now()) {
        Ok(t) => Ok(Instant { second: t.as_second(), nanosecond: t.subsec_nanosecond() }),
        Err(e) => Err(e),
    }
}

/// The decimal numeral of `n` with zeros in front up to `width` digits.
pub open spec fn zero_padded(n: nat, width: nat) -> Seq<char> {
    let d = decimal(n);
    if d.len() < width {
        Seq::new((width - d.len()) as nat, |k: int| '0') + d
    } else {
        d
    }
}

/// The year as `%Y` prints it: four digits at least, a negative year as
/// `-` and three digits at least.
pub open spec fn year_text(y: int) -> Seq<char> {
    if y >= 0 {
        zero_padded(y as nat, 4)
    } else {
        seq!['-'] + zero_padded((-y) as nat, 3)
    }
}

/// The Gregorian date `(year, month, day)` that lies `z` days after
/// 1970-01-01 (the inverse of [`days_from_civil`]).
pub open spec fn civil_from_days(z: int) -> (int, int, int) {
    let zz = z + 719468;
    let era = zz / 146097;
    let doe = zz - era * 146097;
    let yoe = (doe - doe / 1460 + doe / 36524 - doe / 146096) / 365;
    let doy = doe - (365 * yoe + yoe / 4 - yoe / 100);
    let mp = (5 * doy + 2) / 153;
    let d = doy - (153 * mp + 2) / 5 + 1;
    let m = if mp < 10 { mp + 3 } else { mp - 9 };
    let y = yoe + era * 400 + (if m <= 2 { 1int } else { 0int });
    (y, m, d)
}

/// The display format [`LOCAL_FMT`] of the instant `second`/`nanosecond`
/// shown at the UTC offset `offset_seconds`: the civil date and time the
/// offset gives, as `YYYY-MM-DD hh:mm:ss.fff`, the fraction cut to
/// milliseconds.
pub open spec fn local_text(second: i64, nanosecond: i32, offset_seconds: i32) -> Seq<char> {
    let total = (second + offset_seconds) * 1_000_000_000 + nanosecond;
    let secs = total / 1_000_000_000;
    let frac = total % 1_000_000_000;
    let days = secs / 86400;
    let sod = secs % 86400;
    let date = civil_from_days(days);
    year_text(date.0) + seq!['-'] + zero_padded(date.1 as nat, 2) + seq!['-'] + zero_padded(date.2 as nat, 2)
        + seq![' '] + zero_padded((sod / 3600) as nat, 2) + seq![':'] + zero_padded((sod % 3600 / 60) as nat, 2)
        + seq![':'] + zero_padded((sod % 60) as nat, 2) + seq!['.'] + zero_padded((frac / 1_000_000) as nat, 3)
}

/// `Timestamp::to_zoned`, then `Zoned::offset` and `Zoned::strftime` in the
/// display format: the local date and time of a valid instant in `tz`, as
/// [`local_text`] states the format (the
/// instant is valid, so `Timestamp::constant` takes it as it is; printing in
/// this format does not fail), with the offset the zone has at that instant,
/// within jiff's `-25:59:59..=25:59:59`. Which offset depends on the zone's
/// rules, which jiff reads from the system.
#[verifier::external_body]
fn local_in_zone(i: Instant, tz: &jiff::tz::TimeZone) -> (r: (String, i32))
    requires
        valid_instant(i),
    ensures
        -93599 <= r.1 <= 93599,
        r.0@ == local_text(i.second, i.nanosecond, r.1),
{
    let z = jiff::Timestamp::constant(i.second, i.nanosecond).to_zoned(tz.clone());
    (z.strftime(LOCAL_FMT).to_string(), z.offset().seconds())
}

/// What a jiff error says (its `Display`); not stated.
#[verifier::external_body]
fn jiff_error_text(e: &jiff::Error) -> String {
    e.to_string()
}

/// `TimeZone::system`: the system's zone, or UTC where it cannot be found.
#[verifier::external_body]
fn system_zone() -> jiff::tz::TimeZone {
    jiff::tz::TimeZone::system()
}

/// `TimeZone::get`: the named IANA zone from the system's database; whether
/// it is there depends on the system.
#[verifier::external_body]
fn zone_by_name(name: &str) -> Result<jiff::tz::TimeZone, jiff::Error> {
    jiff::tz::TimeZone::get(name)
}

/// `Offset::from_seconds`: fails exactly outside `-25:59:59..=25:59:59`.
#[verifier::external_body]
fn offset_from_seconds(seconds: i32) -> (r: Result<jiff::tz::Offset, jiff::Error>)
    ensures
        r is Ok <==> -93599 <= seconds <= 93599,
{
    jiff::tz::Offset::from_seconds(seconds)
}

/// `Offset::UTC`.
#[verifier::external_body]
fn utc_offset() -> jiff::tz::Offset {
    jiff::tz::Offset::UTC
}

/// `TimeZone::fixed`: the zone that is always at `offset`.
#[verifier::external_body]
fn fixed_zone(offset: jiff::tz::Offset) -> jiff::tz::TimeZone {
    jiff::tz::TimeZone::fixed(offset)
}

/// `Timestamp` parsed from text (`str::parse`), as plain values; the name of
/// its result.
pub uninterp spec fn parsed_timestamp(text: Seq<char>) -> Option<(i64, i32)>;

/// `str::parse::<Timestamp>`: an RFC 3339 or Temporal timestamp with an
/// offset. What it accepts is a function of the text alone; a timestamp
/// that jiff produces is in its normal form.
#[verifier::external_body]
fn parse_timestamp(text: &str) -> (r: Option<Instant>)
    ensures
        match r {
            Some(i) => parsed_timestamp(text@) == Some((i.second, i.nanosecond)) && valid_instant(i),
            None => parsed_timestamp(text@) is None,
        },
{
    match text.parse::<jiff::Timestamp>() {
        Ok(t) => Some(Instant { second: t.as_second(), nanosecond: t.subsec_nanosecond() }),
        Err(_) => None,
    }
}

/// `str::parse::<Zoned>` and `Zoned::timestamp`: a datetime with a time zone
/// annotation, which jiff's parser requires and which stands in square
/// brackets. Zone names are looked up in the system's database, so which
/// texts it accepts is not stated beyond that; an instant that jiff produces
/// is in its normal form.
#[verifier::external_body]
fn parse_zoned(text: &str) -> (r: Option<Instant>)
    ensures
        r matches Some(i) ==> valid_instant(i) && contains(text@, seq!['[']),
{
    match text.parse::<jiff::Zoned>() {
        Ok(z) => {
            let t = z.timestamp();
            Some(Instant { second: t.as_second(), nanosecond: t.subsec_nanosecond() })
        },
        Err(_) => None,
    }
}

/// A civil date and time as plain values: year, month, day, hour, minute,
/// second and the nanosecond fraction, as jiff's `DateTime` getters give
/// them.
pub type CivilFields = (i16, i8, i8, i8, i8, i8, i32);

/// Whether `y` is a leap year of the Gregorian calendar.
pub open spec fn leap_year(y: int) -> bool {
    y % 4 == 0 && (y % 100 != 0 || y % 400 == 0)
}

/// Number of days of month `m` of year `y`.
pub open spec fn days_in_month(y: int, m: int) -> int {
    if m == 2 {
        if leap_year(y) { 29 } else { 28 }
    } else if m == 4 || m == 6 || m == 9 || m == 11 {
        30
    } else {
        31
    }
}

/// A civil date and time that jiff's `DateTime` can hold (years
/// `-9999..=9999`).
pub open spec fn valid_civil(c: CivilFields) -> bool {
    &&& -9999 <= c.0 <= 9999
    &&& 1 <= c.1 <= 12
    &&& 1 <= c.2 <= days_in_month(c.0 as int, c.1 as int)
    &&& 0 <= c.3 <= 23 && 0 <= c.4 <= 59 && 0 <= c.5 <= 59
    &&& 0 <= c.6 <= 999_999_999
}

/// Days from 1970-01-01 to the Gregorian date `y-m-d`.
pub open spec fn days_from_civil(y: int, m: int, d: int) -> int {
    let yy = if m <= 2 { y - 1 } else { y };
    let mp = if m > 2 { m - 3 } else { m + 9 };
    365 * yy + yy / 4 - yy / 100 + yy / 400 + (153 * mp + 2) / 5 + d - 1 - 719468
}

/// The Unix second at which a UTC clock shows the civil date and time `c`
/// (its fraction left out).
pub open spec fn civil_second(c: CivilFields) -> int {
    days_from_civil(c.0 as int, c.1 as int, c.2 as int) * 86400 + c.3 * 3600 + c.4 * 60 + c.5
}

/// `i` is the civil date and time `c` read at the UTC offset `off`, which
/// lies within jiff's `-25:59:59..=25:59:59`.
pub open spec fn civil_at_offset(c: CivilFields, i: Instant, off: int) -> bool {
    &&& -93599 <= off <= 93599
    &&& i.second * 1_000_000_000 + i.nanosecond == (civil_second(c) - off) * 1_000_000_000 + c.6
}

/// A civil date and time far enough inside jiff's range that it is an
/// instant at every offset.
pub open spec fn civil_in_range(c: CivilFields) -> bool {
    MIN_SECOND + 93599 <= civil_second(c) <= MAX_SECOND - 93599
}

/// What `DateTime::strptime(format, text)` reads, as plain values.
pub uninterp spec fn parsed_civil(format: Seq<char>, text: Seq<char>) -> Option<CivilFields>;

/// What `str::parse::<DateTime>` (ISO 8601) reads of `text`, as plain values.
pub uninterp spec fn parsed_iso_civil(text: Seq<char>) -> Option<CivilFields>;

/// `DateTime::strptime` with a format: a function of the format and the
/// text; a `DateTime` that jiff produces holds a valid date and time.
#[verifier::external_body]
fn strptime_civil(format: &str, text: &str) -> (r: Option<CivilFields>)
    ensures
        r == parsed_civil(format@, text@),
        r matches Some(c) ==> valid_civil(c),
{
    match jiff::civil::DateTime::strptime(format, text) {
        Ok(dt) => Some((dt.year(), dt.month(), dt.day(), dt.hour(), dt.minute(), dt.second(), dt.subsec_nanosecond())),
        Err(_) => None,
    }
}

/// `str::parse::<DateTime>`: an ISO 8601 civil datetime; a function of the
/// text; a `DateTime` that jiff produces holds a valid date and time.
#[verifier::external_body]
fn parse_civil(text: &str) -> (r: Result<CivilFields, jiff::Error>)
    ensures
        r is Ok <==> parsed_iso_civil(text@) is Some,
        r matches Ok(c) ==> parsed_iso_civil(text@) == Some(c) && valid_civil(c),
{
    match text.parse::<jiff::civil::DateTime>() {
        Ok(dt) => Ok((dt.year(), dt.month(), dt.day(), dt.hour(), dt.minute(), dt.second(), dt.subsec_nanosecond())),
        Err(e) => Err(e),
    }
}

/// `DateTime::new` and `TimeZone::to_zoned`, then `Zoned::timestamp`: the
/// instant at which `tz` shows the civil datetime, that is the datetime read
/// at the offset `tz` has there (in a gap or a fold, the offset before it).
/// It fails exactly where that instant falls outside jiff's range, which
/// cannot happen for a datetime [`civil_in_range`]; which offset applies
/// depends on the zone's rules, which jiff reads from the system.
#[verifier::external_body]
fn civil_in_zone(tz: &jiff::tz::TimeZone, c: CivilFields) -> (r: Result<Instant, jiff::Error>)
    requires
        valid_civil(c),
    ensures
        r matches Ok(i) ==> valid_instant(i) && exists|off: int| civil_at_offset(c, i, off),
        civil_in_range(c) ==> r is Ok,
{
    let dt = jiff::civil::DateTime::new(c.0, c.1, c.2, c.3, c.4, c.5, c.6)?;
    let t = tz.to_zoned(dt)?.timestamp();
    Ok(Instant { second: t.as_second(), nanosecond: t.subsec_nanosecond() })
}

/// Why a conversion failed, in jiff's words.
#[derive(Debug, Clone, PartialEq, Eq)]
pub struct TimeError {
    pub message: String,
}

fn time_error(e: &jiff::Error) -> (r: TimeError) {
    TimeError { message: jiff_error_text(e) }
}

/// `text` is the local date and time of instant `i` at some UTC offset
/// within jiff's `-25:59:59..=25:59:59` (the offset of the chosen zone at
/// that instant, which the zone's rules decide).
pub open spec fn local_text_of(text: Seq<char>, i: Instant) -> bool {
    exists|off: i32| -93599 <= off <= 93599 && text == #[trigger] local_text(i.second, i.nanosecond, off)
}

/// A conversion: the instant's Unix seconds and milliseconds (fractions cut
/// toward zero) and its local date and time.
pub open spec fn conversion_of(r: (i64, i64, String), i: Instant) -> bool {
    &&& r.0 == i.second
    &&& r.1 == instant_millis(i)
    &&& local_text_of(r.2@, i)
}

/// Whole milliseconds of an instant (`Timestamp::as_millisecond`).
pub fn as_millisecond(i: Instant) -> (r: i64)
    requires
        valid_instant(i),
    ensures
        r == instant_millis(i),
{
    let sub: i32 = if i.nanosecond >= 0 {
        i.nanosecond / 1_000_000
    } else {
        -((-i.nanosecond) / 1_000_000)
    };
    i.second * 1000 + sub as i64
}

/// The conversion of a valid instant in `tz`.
pub fn format_ts(i: Instant, tz: &jiff::tz::TimeZone) -> (r: (i64, i64, String))
    requires
        valid_instant(i),
    ensures
        conversion_of(r, i),
{
    let (local, offset) = local_in_zone(i, tz);
    assert(local_text_of(local@, i)) by {
        assert(-93599 <= offset <= 93599 && local@ == local_text(i.second, i.nanosecond, offset));
    }
    (i.second, as_millisecond(i), local)
}

/// The conversion of the current time; jiff's error where the clock lies
/// outside jiff's range.
pub fn from_now(tz: &jiff::tz::TimeZone) -> (r: Result<(i64, i64, String), TimeError>)
    ensures
        r matches Ok(c) ==> exists|i: Instant| valid_instant(i) && #[trigger] conversion_of(c, i),
{
    match timestamp_now() {
        Ok(now) => {
            let r = format_ts(now, tz);
            let res: Result<(i64, i64, String), TimeError> = Ok(r);
            assert(res matches Ok(c) && valid_instant(now) && conversion_of(c, now));
            res
        },
        Err(e) => Err(time_error(&e)),
    }
}

/// The conversion of Unix second `s`; an error outside jiff's range.
pub fn from_seconds(s: i64, tz: &jiff::tz::TimeZone) -> (r: Result<(i64, i64, String), TimeError>)
    ensures
        r is Ok <==> MIN_SECOND <= s <= MAX_SECOND,
        r matches Ok(c) ==> conversion_of(c, Instant { second: s, nanosecond: 0 }),
{
    match timestamp_from_second(s) {
        Ok(i) => Ok(format_ts(i, tz)),
        Err(e) => Err(time_error(&e)),
    }
}

/// The millisecond arithmetic of [`instant_of_millis`]: it gives back the
/// milliseconds, and a valid instant within jiff's range.
pub proof fn lemma_instant_of_millis(ms: int)
    requires
        MIN_SECOND * 1000 <= ms <= MAX_SECOND * 1000,
    ensures
        valid_instant(instant_of_millis(ms)),
        instant_millis(instant_of_millis(ms)) == ms,
        instant_of_millis(ms).second == tdiv(ms, 1000),
{
    let q = tdiv(ms, 1000);
    let r = trem(ms, 1000);
    if ms >= 0 {
        assert(0 <= r < 1000 && q * 1000 + r == ms && q <= MAX_SECOND) by (nonlinear_arith)
            requires
                ms >= 0,
                q == ms / 1000,
                r == ms - 1000 * q,
                ms <= MAX_SECOND * 1000,
        ;
        assert(0 <= r * 1_000_000 <= 999_000_000) by (nonlinear_arith)
            requires
                0 <= r < 1000,
        ;
        assert((r * 1_000_000) / 1_000_000 == r) by (nonlinear_arith)
            requires
                0 <= r,
        ;
    } else {
        let p = -ms;
        assert(-1000 < r <= 0 && q * 1000 + r == ms && q >= MIN_SECOND) by (nonlinear_arith)
            requires
                ms < 0,
                p == -ms,
                q == -(p / 1000),
                r == ms - 1000 * q,
                ms >= MIN_SECOND * 1000,
        ;
        assert(-999_000_000 <= r * 1_000_000 <= 0) by (nonlinear_arith)
            requires
                -1000 < r <= 0,
        ;
        assert((-(r * 1_000_000)) / 1_000_000 == -r) by (nonlinear_arith)
            requires
                r <= 0,
        ;
        if q == MIN_SECOND {
            assert(r >= 0) by (nonlinear_arith)
                requires
                    q * 1000 + r == ms,
                    q == MIN_SECOND,
                    ms >= MIN_SECOND * 1000,
            ;
        }
    }
}

/// The conversion of Unix millisecond `ms`; an error outside jiff's range.
pub fn from_millis(ms: i64, tz: &jiff::tz::TimeZone) -> (r: Result<(i64, i64, String), TimeError>)
    ensures
        r is Ok <==> MIN_SECOND * 1000 <= ms <= MAX_SECOND * 1000,
        r matches Ok(c) ==> conversion_of(c, instant_of_millis(ms as int)),
{
    match timestamp_from_millisecond(ms) {
        Ok(i) => {
            proof {
                lemma_instant_of_millis(ms as int);
            }
            Ok(format_ts(i, tz))
        },
        Err(e) => Err(time_error(&e)),
    }
}

/// How the civil readers read `t`: as the display format [`LOCAL_FMT`],
/// else as [`SECOND_FMT`], else as ISO 8601; `None` where none reads it.
pub open spec fn civil_reading(t: Seq<char>) -> Option<CivilFields> {
    match parsed_civil(LOCAL_FMT@, t) {
        Some(c) => Some(c),
        None => match parsed_civil(SECOND_FMT@, t) {
            Some(c) => Some(c),
            None => parsed_iso_civil(t),
        },
    }
}

/// Whether the trimmed text `t` may be read as instant `i`: a timestamp
/// with an offset as it says; otherwise, where `t` has a time zone
/// annotation (in square brackets), whatever that zone says; otherwise the
/// civil reading at some offset within jiff's range.
pub open spec fn datetime_reads_as(t: Seq<char>, i: Instant) -> bool {
    match parsed_timestamp(t) {
        Some(p) => i.second == p.0 && i.nanosecond == p.1,
        None => contains(t, seq!['[']) || match civil_reading(t) {
            Some(c) => exists|off: int| civil_at_offset(c, i, off),
            None => false,
        },
    }
}

/// Whether the trimmed text `t` is read in every zone: it is a timestamp
/// with an offset, or, with no time zone annotation, a civil date and time
/// far enough inside jiff's range.
pub open spec fn datetime_always_read(t: Seq<char>) -> bool {
    ||| parsed_timestamp(t) is Some
    ||| !contains(t, seq!['[']) && (civil_reading(t) matches Some(c) && civil_in_range(c))
}

/// Whether the trimmed text `t` is read in no zone: no timestamp, no time
/// zone annotation, and no civil reading.
pub open spec fn datetime_never_read(t: Seq<char>) -> bool {
    parsed_timestamp(t) is None && !contains(t, seq!['[']) && civil_reading(t) is None
}

/// The conversion `c` of instant `i`, as the result of reading text `t`.
fn read_as(c: (i64, i64, String), Ghost(i): Ghost<Instant>, Ghost(t): Ghost<Seq<char>>) -> (r: Result<
    (i64, i64, String),
    TimeError,
>)
    requires
        valid_instant(i),
        conversion_of(c, i),
        datetime_reads_as(t, i),
    ensures
        r matches Ok(x) && exists|j: Instant|
            valid_instant(j) && #[trigger] conversion_of(x, j) && datetime_reads_as(t, j),
{
    let res: Result<(i64, i64, String), TimeError> = Ok(c);
    assert(res matches Ok(x) && valid_instant(i) && conversion_of(x, i) && datetime_reads_as(t, i));
    res
}

/// The conversion of a date and time typed by the user, trimmed: a
/// timestamp with an offset as it says; otherwise a datetime with a zone
/// annotation; otherwise a civil datetime as `LOCAL_FMT`, as `SECOND_FMT`,
/// or in ISO 8601, taken in `tz`.
pub fn from_datetime(text: &str, tz: &jiff::tz::TimeZone) -> (r: Result<(i64, i64, String), TimeError>)
    ensures
        datetime_always_read(trim(text@)) ==> r is Ok,
        datetime_never_read(trim(text@)) ==> r is Err,
        r matches Ok(c) ==> exists|i: Instant|
            valid_instant(i) && #[trigger] conversion_of(c, i) && datetime_reads_as(trim(text@), i),
{
    let t = trimmed(text);
    let ghost tt = trim(text@);
    if let Some(i) = parse_timestamp(t.as_str()) {
        return read_as(format_ts(i, tz), Ghost(i), Ghost(tt));
    }
    if let Some(i) = parse_zoned(t.as_str()) {
        return read_as(format_ts(i, tz), Ghost(i), Ghost(tt));
    }
    let civil = match strptime_civil(LOCAL_FMT, t.as_str()) {
        Some(c) => c,
        None => match strptime_civil(SECOND_FMT, t.as_str()) {
            Some(c) => c,
            None => match parse_civil(t.as_str()) {
                Ok(c) => c,
                Err(e) => return Err(time_error(&e)),
            },
        },
    };
    assert(civil_reading(tt) == Some(civil));
    match civil_in_zone(tz, civil) {
        Ok(i) => {
            assert(parsed_timestamp(tt) is None);
            let ghost off = choose|off: int| civil_at_offset(civil, i, off);
            assert(civil_at_offset(civil_reading(tt)->0, i, off));
            assert(datetime_reads_as(tt, i));
            read_as(format_ts(i, tz), Ghost(i), Ghost(tt))
        },
        Err(e) => Err(time_error(&e)),
    }
}

/// A time zone offered by the time tool: its label, its IANA name (none
/// for the system's zone), and the whole-hour offset used where the system
/// lacks that zone.
#[derive(Debug, Clone, Copy, PartialEq, Eq)]
pub struct TimezoneOption {
    pub label: &'static str,
    pub iana_name: Option<&'static str>,
    pub fallback_offset_hours: i8,
}

/// Number of time zones offered.
pub const TIMEZONE_COUNT: usize = 13;

/// The IANA name of the zone at `index` of the list (none for the local zone
/// at 0), and its fallback offset in hours.
pub open spec fn zone_at(index: int) -> (Option<Seq<char>>, int) {
    if index == 1 {
        (Some("UTC"@), 0)
    } else if index == 2 {
        (Some("Asia/Shanghai"@), 8)
    } else if index == 3 {
        (Some("Asia/Tokyo"@), 9)
    } else if index == 4 {
        (Some("Asia/Bangkok"@), 7)
    } else if index == 5 {
        (Some("Europe/London"@), 0)
    } else if index == 6 {
        (Some("Europe/Berlin"@), 1)
    } else if index == 7 {
        (Some("Europe/Moscow"@), 3)
    } else if index == 8 {
        (Some("Australia/Sydney"@), 10)
    } else if index == 9 {
        (Some("America/New_York"@), -5)
    } else if index == 10 {
        (Some("America/Chicago"@), -6)
    } else if index == 11 {
        (Some("America/Denver"@), -7)
    } else if index == 12 {
        (Some("America/Los_Angeles"@), -8)
    } else {
        (None, 0)
    }
}

/// The zone at `index` of the list, as name and fallback offset.
pub open spec fn option_zone(o: TimezoneOption) -> (Option<Seq<char>>, int) {
    (
        match o.iana_name {
            Some(n) => Some(n@),
            None => None,
        },
        o.fallback_offset_hours as int,
    )
}

/// The zone offered at `index`; the local zone (the first entry) for an
/// index past the list.
pub fn timezone_option(index: usize) -> (r: TimezoneOption)
    ensures
        option_zone(r) == zone_at(if index < TIMEZONE_COUNT { index as int } else { 0 }),
{
    match index {
        1 => TimezoneOption { label: "UTC (世界标准时间)", iana_name: Some("UTC"), fallback_offset_hours: 0 },
        2 => TimezoneOption {
            label: "UTC+8 (北京 / 上海 / 香港 / 台北)",
            iana_name: Some("Asia/Shanghai"),
            fallback_offset_hours: 8,
        },
        3 => TimezoneOption { label: "UTC+9 (东京 / 首尔)", iana_name: Some("Asia/Tokyo"), fallback_offset_hours: 9 },
        4 => TimezoneOption {
            label: "UTC+7 (曼谷 / 雅加达 / 河内)",
            iana_name: Some("Asia/Bangkok"),
            fallback_offset_hours: 7,
        },
        5 => TimezoneOption {
            label: "UTC+0 (伦敦 / GMT / BST)",
            iana_name: Some("Europe/London"),
            fallback_offset_hours: 0,
        },
        6 => TimezoneOption {
            label: "UTC+1 (巴黎 / 柏林 / 罗马)",
            iana_name: Some("Europe/Berlin"),
            fallback_offset_hours: 1,
        },
        7 => TimezoneOption {
            label: "UTC+3 (莫斯科 / 利雅得)",
            iana_name: Some("Europe/Moscow"),
            fallback_offset_hours: 3,
        },
        8 => TimezoneOption {
            label: "UTC+10 (悉尼 / 墨尔本)",
            iana_name: Some("Australia/Sydney"),
            fallback_offset_hours: 10,
        },
        9 => TimezoneOption {
            label: "UTC-5 (纽约 / 美东 EST/EDT)",
            iana_name: Some("America/New_York"),
            fallback_offset_hours: -5,
        },
        10 => TimezoneOption {
            label: "UTC-6 (芝加哥 / 中部 CST/CDT)",
            iana_name: Some("America/Chicago"),
            fallback_offset_hours: -6,
        },
        11 => TimezoneOption {
            label: "UTC-7 (丹佛 / 山区 MST/MDT)",
            iana_name: Some("America/Denver"),
            fallback_offset_hours: -7,
        },
        12 => TimezoneOption {
            label: "UTC-8 (旧金山 / 美西 PST/PDT)",
            iana_name: Some("America/Los_Angeles"),
            fallback_offset_hours: -8,
        },
        _ => TimezoneOption { label: "本地时间 (Local)", iana_name: None, fallback_offset_hours: 0 },
    }
}

/// The offset, in seconds, of a whole number of hours.
pub fn fallback_offset_seconds(hours: i8) -> (r: i32)
    ensures
        r == hours * 3600,
{
    (hours as i32) * 3600
}

/// Where the zone of an option comes from.
#[derive(Debug, Clone, Copy, PartialEq, Eq)]
pub enum ZonePlan {
    /// The system's zone.
    System,
    /// The named IANA zone; where the system lacks it, the zone fixed at the
    /// offset in seconds (UTC where jiff refuses that offset).
    Named(&'static str, i32),
}

/// The plan for an option's zone: the system's for the local entry, else
/// its IANA name with its fallback offset in seconds.
pub fn zone_plan(opt: &TimezoneOption) -> (r: ZonePlan)
    ensures
        match opt.iana_name {
            None => r == ZonePlan::System,
            Some(name) => r == ZonePlan::Named(name, (opt.fallback_offset_hours * 3600) as i32),
        },
{
    match opt.iana_name {
        None => ZonePlan::System,
        Some(name) => ZonePlan::Named(name, fallback_offset_seconds(opt.fallback_offset_hours)),
    }
}

/// The time zone of an option, as [`zone_plan`] says: the system's for the
/// local entry; else the named zone, or, where the system lacks it, the
/// fixed fallback offset (or UTC where that offset is out of range). The
/// zone itself is not stated: the system's zone and its zone database decide
/// it.
pub fn resolve_timezone(opt: &TimezoneOption) -> jiff::tz::TimeZone {
    match zone_plan(opt) {
        ZonePlan::System => system_zone(),
        ZonePlan::Named(name, fallback_seconds) => zone_or_fallback(zone_by_name(name), fallback_seconds),
    }
}

/// The zone a lookup found; where it found none, the zone fixed at
/// `fallback_seconds` east of UTC, or UTC where jiff refuses that offset.
pub fn zone_or_fallback(found: Result<jiff::tz::TimeZone, jiff::Error>, fallback_seconds: i32) -> (r: jiff::tz::TimeZone)
    ensures
        found matches Ok(z) ==> r == z,
{
    match found {
        Ok(tz) => tz,
        Err(_) => {
            let offset = match offset_from_seconds(fallback_seconds) {
                Ok(o) => o,
                Err(_) => utc_offset(),
            };
            fixed_zone(offset)
        },
    }
}

/// The time zone offered at `index` (the local zone past the list).
pub fn resolve_timezone_by_index(index: usize) -> jiff::tz::TimeZone {
    let opt = timezone_option(index);
    resolve_timezone(&opt)
}

/// Which zone option of the time tool a local date and time was shown in.
/// Only a conversion made through a [`ZoneChoice`] hands one out.
pub struct ZoneMark {
    option: Ghost<usize>,
}

impl ZoneMark {
    /// The list position of the zone option.
    pub closed spec fn option(&self) -> usize {
        self.option@
    }
}

/// A zone option of the time tool with the zone it resolves to.
pub struct ZoneChoice {
    index: usize,
    tz: jiff::tz::TimeZone,
}

/// A conversion together with the zone option its local date and time was
/// shown in.
pub type MarkedConversion = ((i64, i64, String), ZoneMark);

impl ZoneChoice {
    /// The list position of the zone option.
    pub closed spec fn option(&self) -> usize {
        self.index
    }

    /// The zone option at `index` of the list, resolved as
    /// [`resolve_timezone_by_index`] does.
    pub fn of_index(index: usize) -> (r: ZoneChoice)
        ensures
            r.option() == index,
    {
        ZoneChoice { index, tz: resolve_timezone_by_index(index) }
    }

    fn mark(&self) -> (r: ZoneMark)
        ensures
            r.option() == self.option(),
    {
        ZoneMark { option: Ghost(self.index) }
    }

    /// [`from_seconds`] in this zone.
    pub fn seconds(&self, s: i64) -> (r: Result<MarkedConversion, TimeError>)
        ensures
            r is Ok <==> MIN_SECOND <= s <= MAX_SECOND,
            r matches Ok(c) ==> conversion_of(c.0, Instant { second: s, nanosecond: 0 }) && c.1.option()
                == self.option(),
    {
        match from_seconds(s, &self.tz) {
            Ok(c) => Ok((c, self.mark())),
            Err(e) => Err(e),
        }
    }

    /// [`from_millis`] in this zone.
    pub fn millis(&self, ms: i64) -> (r: Result<MarkedConversion, TimeError>)
        ensures
            r is Ok <==> MIN_SECOND * 1000 <= ms <= MAX_SECOND * 1000,
            r matches Ok(c) ==> conversion_of(c.0, instant_of_millis(ms as int)) && c.1.option() == self.option(),
    {
        match from_millis(ms, &self.tz) {
            Ok(c) => Ok((c, self.mark())),
            Err(e) => Err(e),
        }
    }

    /// [`from_now`] in this zone.
    pub fn now(&self) -> (r: Result<MarkedConversion, TimeError>)
        ensures
            r matches Ok(c) ==> (exists|i: Instant| valid_instant(i) && #[trigger] conversion_of(c.0, i)) && c.1.option()
                == self.option(),
    {
        match from_now(&self.tz) {
            Ok(c) => {
                let ghost i = choose|i: Instant| valid_instant(i) && conversion_of(c, i);
                let res: Result<MarkedConversion, TimeError> = Ok((c, self.mark()));
                assert(res matches Ok(x) && valid_instant(i) && conversion_of(x.0, i));
                res
            },
            Err(e) => Err(e),
        }
    }

    /// [`from_datetime`] in this zone.
    pub fn datetime(&self, text: &str) -> (r: Result<MarkedConversion, TimeError>)
        ensures
            datetime_always_read(trim(text@)) ==> r is Ok,
            datetime_never_read(trim(text@)) ==> r is Err,
            r matches Ok(c) ==> (exists|i: Instant|
                valid_instant(i) && #[trigger] conversion_of(c.0, i) && datetime_reads_as(trim(text@), i)) && c.1.option()
                == self.option(),
    {
        match from_datetime(text, &self.tz) {
            Ok(c) => {
                let ghost i = choose|i: Instant|
                    valid_instant(i) && conversion_of(c, i) && datetime_reads_as(trim(text@), i);
                let res: Result<MarkedConversion, TimeError> = Ok((c, self.mark()));
                assert(res matches Ok(x) && valid_instant(i) && conversion_of(x.0, i) && datetime_reads_as(
                    trim(text@),
                    i,
                ));
                res
            },
            Err(e) => Err(e),
        }
    }
}

} // verus!
