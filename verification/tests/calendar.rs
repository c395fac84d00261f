use misskey_id::calendar::{format_utc, YEAR_10000};

#[test]
fn format_utc_writes_rfc_3339() {
    assert_eq!(format_utc(0).unwrap(), "1970-01-01T00:00:00+00:00");
    assert_eq!(format_utc(1).unwrap(), "1970-01-01T00:00:00.001+00:00");
    assert_eq!(format_utc(1741519768780).unwrap(), "2025-03-09T11:29:28.780+00:00");
    assert_eq!(format_utc(946684800000).unwrap(), "2000-01-01T00:00:00+00:00");
}

#[test]
fn format_utc_stops_before_the_year_10000() {
    assert_eq!(
        format_utc(YEAR_10000 - 1).unwrap(),
        "9999-12-31T23:59:59.999+00:00"
    );
    assert_eq!(format_utc(YEAR_10000), None);
    assert_eq!(format_utc(u64::MAX), None);
}
