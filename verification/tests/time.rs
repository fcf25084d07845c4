use jiff::tz::TimeZone;
use xtools::text::{i64_to_decimal, parse_i64};
use xtools::time_app::TimeView;
use xtools::time_convert::{
    as_millisecond, fallback_offset_seconds, from_datetime, from_now, zone_or_fallback, from_millis, from_seconds, resolve_timezone,
    resolve_timezone_by_index, timezone_option, zone_plan, Instant, TimezoneOption, ZonePlan, MAX_SECOND, MIN_SECOND, TIMEZONE_COUNT,
};

#[test]
fn seconds_conversion_roundtrip() {
    let tz = TimeZone::UTC;
    let (s, ms, utc) = from_seconds(1700000000, &tz).unwrap();
    assert_eq!(s, 1700000000);
    assert_eq!(ms, 1700000000000);
    assert_eq!(utc, "2023-11-14 22:13:20.000");
}

#[test]
fn millis_conversion_roundtrip() {
    let tz = TimeZone::UTC;
    let (s, ms, utc) = from_millis(1700000000123, &tz).unwrap();
    assert_eq!(s, 1700000000);
    assert_eq!(ms, 1700000000123);
    assert_eq!(utc, "2023-11-14 22:13:20.123");
}

#[test]
fn datetime_conversion_roundtrip() {
    let tz = resolve_timezone_by_index(2);
    let (_, _, dt_str) = from_seconds(1700000000, &tz).unwrap();
    assert_eq!(dt_str, "2023-11-15 06:13:20.000");

    let (s2, _, _) = from_datetime(&dt_str, &tz).unwrap();
    assert_eq!(s2, 1700000000);
}

#[test]
fn timezone_conversion_differences() {
    let utc_tz = TimeZone::UTC;
    let shanghai_tz = TimeZone::get("Asia/Shanghai").unwrap();
    let tokyo_tz = TimeZone::get("Asia/Tokyo").unwrap();
    let ny_tz = TimeZone::get("America/New_York").unwrap();

    let (_, _, utc_str) = from_seconds(1700000000, &utc_tz).unwrap();
    let (_, _, sh_str) = from_seconds(1700000000, &shanghai_tz).unwrap();
    let (_, _, tk_str) = from_seconds(1700000000, &tokyo_tz).unwrap();
    let (_, _, ny_str) = from_seconds(1700000000, &ny_tz).unwrap();

    assert_eq!(utc_str, "2023-11-14 22:13:20.000");
    assert_eq!(sh_str, "2023-11-15 06:13:20.000");
    assert_eq!(tk_str, "2023-11-15 07:13:20.000");
    assert_eq!(ny_str, "2023-11-14 17:13:20.000");
}

#[test]
fn rfc3339_input_parsed() {
    let tz = TimeZone::UTC;
    let (s, _, _) = from_datetime("2023-11-14T22:13:20Z", &tz).unwrap();
    assert_eq!(s, 1700000000);

    let (s2, _, _) = from_datetime("2023-11-15T06:13:20+08:00", &tz).unwrap();
    assert_eq!(s2, 1700000000);
}

#[test]
fn invalid_datetime_rejected() {
    let tz = TimeZone::UTC;
    assert!(from_datetime("invalid-date-string", &tz).is_err());
}

#[test]
fn range_limits() {
    let tz = TimeZone::UTC;
    assert!(from_seconds(MAX_SECOND, &tz).is_ok());
    assert!(from_seconds(MAX_SECOND + 1, &tz).is_err());
    assert!(from_seconds(MIN_SECOND, &tz).is_ok());
    assert!(from_seconds(MIN_SECOND - 1, &tz).is_err());
    assert!(from_millis(MAX_SECOND * 1000, &tz).is_ok());
    assert!(from_millis(MAX_SECOND * 1000 + 1, &tz).is_err());
    assert!(from_millis(i64::MIN, &tz).is_err());
}

#[test]
fn negative_millis_truncate_toward_zero() {
    let tz = TimeZone::UTC;
    let (s, ms, text) = from_millis(-1500, &tz).unwrap();
    assert_eq!((s, ms), (-1, -1500));
    assert_eq!(text, "1969-12-31 23:59:58.500");
    assert_eq!(as_millisecond(Instant { second: -1, nanosecond: -500_000_000 }), -1500);
}

#[test]
fn civil_and_second_formats_read_in_zone() {
    let tz = TimeZone::fixed(jiff::tz::Offset::from_hours(8).unwrap());
    let (s, _, _) = from_datetime("  2023-11-15 06:13:20  ", &tz).unwrap();
    assert_eq!(s, 1700000000);
    let (_, ms, _) = from_datetime("2023-11-15 06:13:20.250", &tz).unwrap();
    assert_eq!(ms, 1700000000250);
    let (s, _, _) = from_datetime("2023-11-15T06:13:20", &tz).unwrap();
    assert_eq!(s, 1700000000);
}

#[test]
fn timezone_table() {
    assert_eq!(TIMEZONE_COUNT, 13);
    assert_eq!(timezone_option(0).iana_name, None);
    assert_eq!(timezone_option(2).iana_name, Some("Asia/Shanghai"));
    assert_eq!(timezone_option(9).fallback_offset_hours, -5);
    assert_eq!(timezone_option(12).label, "UTC-8 (旧金山 / 美西 PST/PDT)");
    assert_eq!(timezone_option(13), timezone_option(0));
    assert_eq!(fallback_offset_seconds(-8), -28800);
}

#[test]
fn integer_text() {
    assert_eq!(parse_i64("123"), Some(123));
    assert_eq!(parse_i64("+7"), Some(7));
    assert_eq!(parse_i64("-9223372036854775808"), Some(i64::MIN));
    assert_eq!(parse_i64("9223372036854775807"), Some(i64::MAX));
    assert_eq!(parse_i64("9223372036854775808"), None);
    assert_eq!(parse_i64("-"), None);
    assert_eq!(parse_i64(""), None);
    assert_eq!(parse_i64(" 1"), None);
    assert_eq!(parse_i64("1a"), None);
    assert_eq!(parse_i64("00012"), Some(12));
    for n in [0i64, 5, -5, 1700000000, i64::MIN, i64::MAX] {
        assert_eq!(i64_to_decimal(n), n.to_string());
        assert_eq!(parse_i64(&n.to_string()), n.to_string().parse::<i64>().ok());
    }
}

#[test]
fn time_view_edits() {
    let mut view = TimeView::new();
    assert!(view.sec_ok && view.ms_ok && view.local_ok);
    view.tz_changed(1);
    view.seconds_edited(" 1700000000 ");
    assert_eq!(view.seconds, "1700000000");
    assert_eq!(view.millis, "1700000000000");
    assert_eq!(view.local, "2023-11-14 22:13:20.000");
    view.millis_edited("1700000000123");
    assert_eq!(view.seconds, "1700000000");
    assert_eq!(view.local, "2023-11-14 22:13:20.123");
    view.seconds_edited("abc");
    assert!(!view.sec_ok);
    assert_eq!(view.error_seconds, "秒数无效。输入 Unix 秒，或点「现在」。");
    view.seconds_edited("  ");
    assert_eq!(view.error_seconds, "这一栏是空的\n输入一个值，或点「现在」填入当前时间。");
    view.local_edited("2023-11-14T22:13:20Z");
    assert_eq!(view.seconds, "1700000000");
    assert!(view.sec_ok && view.local_ok);
    view.local_edited("nonsense");
    assert!(!view.local_ok);
    assert_eq!(view.error_local, "时间格式无效。按 年-月-日 时:分:秒 填写，或点「现在」。");
}

#[test]
fn time_view_zone_change_and_copies() {
    let mut view = TimeView::new();
    view.tz_changed(1);
    view.seconds_edited("0");
    view.tz_changed(3);
    assert_eq!(view.local, "1970-01-01 09:00:00.000");
    assert_eq!(view.copy_seconds(), Some("0".to_string()));
    assert!(view.sec_copied);
    assert_eq!(view.copy_millis(), Some("0".to_string()));
    assert_eq!(view.copy_local(), Some("1970-01-01 09:00:00.000".to_string()));
    view.copies_expired();
    assert!(!view.sec_copied && !view.ms_copied && !view.local_copied);
    view.seconds = "x".to_string();
    assert_eq!(view.copy_seconds(), None);
}

#[test]
fn unknown_zone_falls_back_to_fixed_offset() {
    let near = TimezoneOption { label: "x", iana_name: Some("Nowhere/Atlantis"), fallback_offset_hours: 3 };
    let (_, _, text) = from_seconds(0, &resolve_timezone(&near)).unwrap();
    assert_eq!(text, "1970-01-01 03:00:00.000");
    let far = TimezoneOption { label: "y", iana_name: Some("Nowhere/Atlantis"), fallback_offset_hours: 100 };
    let (_, _, text) = from_seconds(0, &resolve_timezone(&far)).unwrap();
    assert_eq!(text, "1970-01-01 00:00:00.000");
}

#[test]
fn zone_plans_follow_the_options() {
    assert_eq!(zone_plan(&timezone_option(0)), ZonePlan::System);
    assert_eq!(zone_plan(&timezone_option(2)), ZonePlan::Named("Asia/Shanghai", 28800));
    assert_eq!(zone_plan(&timezone_option(9)).clone(), ZonePlan::Named(timezone_option(9).iana_name.unwrap(), -18000));
}

#[test]
fn now_is_read_from_the_clock() {
    let (s, ms, local) = from_now(&TimeZone::UTC).unwrap();
    assert_eq!(ms.div_euclid(1000), s);
    assert!(s > 1_700_000_000);
    assert_eq!(local.len(), "2023-11-14 22:13:20.000".len());
    let (s2, _, _) = from_datetime(&local, &TimeZone::UTC).unwrap();
    assert_eq!(s2, s);
}

#[test]
fn civil_text_is_read_in_the_zone() {
    let tz = resolve_timezone_by_index(2);
    let (s, ms, local) = from_datetime("2023-11-15 06:13:20.250", &tz).unwrap();
    assert_eq!((s, ms), (1_700_000_000, 1_700_000_000_250));
    assert_eq!(local, "2023-11-15 06:13:20.250");
    assert!(from_datetime("2023-11-15 6h", &tz).is_err());
    assert!(from_datetime("", &tz).is_err());
}

#[test]
fn zone_lookup_falls_back_to_a_fixed_offset() {
    let epoch = jiff::Timestamp::UNIX_EPOCH;
    let found = zone_or_fallback(Ok(TimeZone::fixed(jiff::tz::Offset::from_seconds(7200).unwrap())), 3600);
    assert_eq!(found.to_offset(epoch).seconds(), 7200);
    let fixed = zone_or_fallback(TimeZone::get("No/Such_Zone"), 3600);
    assert_eq!(fixed.to_offset(epoch).seconds(), 3600);
    let utc = zone_or_fallback(TimeZone::get("No/Such_Zone"), 100_000);
    assert_eq!(utc.to_offset(epoch).seconds(), 0);
}
