use cytrace::timefmt::epoch_to_iso;

#[test]
fn timefmt_epoch_to_iso_formats_utc() {
    assert_eq!(epoch_to_iso(0), "1970-01-01T00:00:00Z");
    assert_eq!(epoch_to_iso(1_609_459_200), "2021-01-01T00:00:00Z");
    assert_eq!(epoch_to_iso(1_782_295_451), "2026-06-24T10:04:11Z");
}

#[test]
fn epoch_to_iso_handles_leap_days_and_day_ends() {
    assert_eq!(epoch_to_iso(951_782_400), "2000-02-29T00:00:00Z");
    assert_eq!(epoch_to_iso(86_399), "1970-01-01T23:59:59Z");
    assert_eq!(epoch_to_iso(4_107_542_400), "2100-03-01T00:00:00Z");
    assert_eq!(epoch_to_iso(253_402_300_799), "9999-12-31T23:59:59Z");
    assert_eq!(epoch_to_iso(253_402_300_800), "10000-01-01T00:00:00Z");
}
