use takeout_fixer::dates::{
    parse_i64, parse_exif_datetime, civil_from_epoch, epoch_from_civil, CivilDate, leap_year,
    month_length,
};
use takeout_fixer::sidecar::{resolve_capture_date, sidecar_epoch};
use takeout_fixer::filer::{target_folder_path, month_name, u64_to_string};

const SIDECAR_PAYLOAD: &str = "{\"photoTakenTime\":{\"timestamp\":\"1000000000\",\"formatted\":\"Sep 9, 2001\"}}";

#[test]
fn sidecar_epoch_resolves_to_utc_calendar_date() {
    // capture_time = 1000000000 epoch seconds
    let resolved = resolve_capture_date(None, Some(SIDECAR_PAYLOAD));
    assert_eq!(resolved, Some(1_000_000_000));
    let c = civil_from_epoch(1_000_000_000).unwrap();
    assert_eq!((c.year, c.month, c.day), (2001, 9, 9));
    let path = target_folder_path("archive", c);
    assert_eq!(path, "archive/2001/September/9/");
}

#[test]
fn date_precedence_prefers_embedded_metadata() {
    // the sidecar reports a different moment than the file itself
    let resolved = resolve_capture_date(Some(86_400), Some(SIDECAR_PAYLOAD));
    assert_eq!(resolved, Some(86_400));
}

#[test]
fn resolution_falls_through_to_nothing() {
    assert_eq!(resolve_capture_date(None, None), None);
    assert_eq!(resolve_capture_date(None, Some("{}")), None);
    assert_eq!(resolve_capture_date(None, Some("not json at all")), None);
    assert_eq!(
        resolve_capture_date(None, Some("{\"photoTakenTime\":{\"timestamp\":\"soon\"}}")),
        None,
    );
}

#[test]
fn sidecar_epoch_reads_the_nested_field() {
    assert_eq!(sidecar_epoch(SIDECAR_PAYLOAD), Some(1_000_000_000));
    assert_eq!(sidecar_epoch("{\"photoTakenTime\":{\"timestamp\":\"-86400\"}}"), Some(-86_400));
    assert_eq!(sidecar_epoch("{\"photoTakenTime\":{\"timestamp\":123}}"), None);
    assert_eq!(sidecar_epoch("{\"photoTakenTime\":\"1000000000\"}"), None);
}

#[test]
fn decimal_parsing_matches_the_platform() {
    assert_eq!(parse_i64("1000000000"), Some(1_000_000_000));
    assert_eq!(parse_i64("-42"), Some(-42));
    assert_eq!(parse_i64("0"), Some(0));
    assert_eq!(parse_i64("-0"), Some(0));
    assert_eq!(parse_i64(""), None);
    assert_eq!(parse_i64("-"), None);
    assert_eq!(parse_i64("12a"), None);
    assert_eq!(parse_i64(" 12"), None);
    assert_eq!(parse_i64("9223372036854775807"), Some(i64::MAX));
    assert_eq!(parse_i64("9223372036854775808"), None);
    assert_eq!(parse_i64("-9223372036854775808"), Some(i64::MIN));
    assert_eq!(parse_i64("-9223372036854775809"), None);
    assert_eq!(parse_i64("00017"), Some(17));
}

#[test]
fn embedded_timestamp_parsing() {
    assert_eq!(parse_exif_datetime("2001-09-09T01:46:40"), Some(1_000_000_000));
    assert_eq!(parse_exif_datetime("1970-01-01T00:00:00"), Some(0));
    // leap day handling
    assert_eq!(parse_exif_datetime("2024-02-29T00:00:00"), Some(1_709_164_800));
    assert_eq!(parse_exif_datetime("2023-02-29T00:00:00"), None);
    // shape violations
    assert_eq!(parse_exif_datetime("2001-09-09 01:46:40"), None);
    assert_eq!(parse_exif_datetime("2001-09-09T01:46"), None);
    assert_eq!(parse_exif_datetime("2001-13-09T01:46:40"), None);
    assert_eq!(parse_exif_datetime("2001-00-09T01:46:40"), None);
    assert_eq!(parse_exif_datetime("2001-09-31T01:46:40"), None);
    assert_eq!(parse_exif_datetime("2001-09-09T24:00:00"), None);
}

#[test]
fn civil_and_epoch_agree_both_ways() {
    let c = CivilDate { year: 2001, month: 9, day: 9 };
    assert_eq!(epoch_from_civil(c, 1, 46, 40), 1_000_000_000);
    let back = civil_from_epoch(1_000_000_000).unwrap();
    assert_eq!((back.year, back.month, back.day), (2001, 9, 9));
    // a day before the epoch
    let neg = civil_from_epoch(-1).unwrap();
    assert_eq!((neg.year, neg.month, neg.day), (1969, 12, 31));
}

#[test]
fn calendar_arithmetic() {
    assert!(leap_year(2000));
    assert!(leap_year(2024));
    assert!(!leap_year(1900));
    assert!(!leap_year(2023));
    assert_eq!(month_length(2024, 2), 29);
    assert_eq!(month_length(2023, 2), 28);
    assert_eq!(month_length(2023, 9), 30);
    assert_eq!(month_length(2023, 12), 31);
}

#[test]
fn path_rendering() {
    assert_eq!(u64_to_string(0), "0");
    assert_eq!(u64_to_string(7), "7");
    assert_eq!(u64_to_string(2024), "2024");
    assert_eq!(u64_to_string(u64::MAX), "18446744073709551615");
    assert_eq!(month_name(1), "January");
    assert_eq!(month_name(9), "September");
    assert_eq!(month_name(12), "December");
    let c = CivilDate { year: 1970, month: 1, day: 1 };
    assert_eq!(target_folder_path("root", c), "root/1970/January/1/");
}
