use dev_monitor::format::{
    fits_calendar, CALENDAR_FIRST_MS, CALENDAR_LAST_MS,
    bytes, clock, countdown, date, day_clock, day_minute, full, or_dash, parse, parse_opt, plural, span, until, DASH,
};

fn t(s: &str) -> i64 {
    parse(s).expect(s)
}

#[test]
fn bytes_group_thousands() {
    assert_eq!(bytes(184_320), "184,320 B");
    assert_eq!(bytes(604), "604 B");
    assert_eq!(bytes(1_000_000), "1,000,000 B");
    assert_eq!(bytes(0), "0 B");
}

#[test]
fn parses_python_isoformat_with_and_without_offset() {
    assert_eq!(full(t("2026-08-14T09:04:11.123456+00:00")), "2026-08-14 09:04:11Z");
    assert_eq!(full(t("2026-08-14T09:04:11")), "2026-08-14 09:04:11Z");
    assert_eq!(full(t("2026-08-14T11:04:11+02:00")), "2026-08-14 09:04:11Z");
    assert!(parse("").is_none());
    assert!(parse("not a time").is_none());
}

#[test]
fn spans_use_the_two_largest_units() {
    assert_eq!(span(41), "41s");
    assert_eq!(span(109), "1m 49s");
    assert_eq!(span(955 * 60), "15h 55m");
    assert_eq!(span(155 * 3600), "6d 11h");
    assert_eq!(span(-5), "0s");
}

#[test]
fn until_reads_forward_and_backward() {
    let now = t("2026-08-14T09:00:00Z");
    assert_eq!(until(now, t("2026-08-19T09:00:00Z")), "in 5 days");
    assert_eq!(until(now, t("2026-08-15T01:30:00Z")), "in 16h 30m");
    assert_eq!(until(now, t("2026-08-14T06:00:00Z")), "3h 00m ago");
}

#[test]
fn a_space_may_stand_for_the_t() {
    assert_eq!(t("2026-08-14 09:04:11+00:00"), t("2026-08-14T09:04:11Z"));
    assert_eq!(parse_opt(&Some(" 2026-08-14T09:04:11Z ".into())), Some(t("2026-08-14T09:04:11Z")));
    assert_eq!(parse_opt(&None), None);
}

#[test]
fn instants_print_in_each_pattern() {
    let x = t("2026-08-11T04:12:07Z");
    assert_eq!(clock(x), "04:12:07Z");
    assert_eq!(day_clock(x), "08-11 04:12:07Z");
    assert_eq!(day_minute(x), "08-11 04:12Z");
    assert_eq!(date(x), "2026-08-11");
}

#[test]
fn countdowns_use_the_largest_whole_unit_and_at_least_a_minute() {
    assert_eq!(countdown(2 * 86_400_000 + 5), "2d");
    assert_eq!(countdown(-(14 * 3_600_000)), "14h");
    assert_eq!(countdown(35 * 60_000), "35m");
    assert_eq!(countdown(5_000), "1m");
}

#[test]
fn plurals_and_dashes() {
    assert_eq!(plural(1, "audit row"), "1 audit row");
    assert_eq!(plural(0, "catalog row"), "0 catalog rows");
    assert_eq!(or_dash(Some(String::new())), DASH);
    assert_eq!(or_dash(None), "—");
    assert_eq!(or_dash(Some("x".into())), "x");
}

#[test]
fn the_calendar_runs_to_the_last_instant_chrono_holds() {
    assert!(fits_calendar(CALENDAR_LAST_MS) && fits_calendar(CALENDAR_FIRST_MS));
    assert!(!fits_calendar(CALENDAR_LAST_MS + 1) && !fits_calendar(CALENDAR_FIRST_MS - 1));
    assert!(full(CALENDAR_LAST_MS).ends_with("262142-12-31 23:59:59Z"));
    assert!(full(CALENDAR_FIRST_MS).ends_with("262143-01-01 00:00:00Z"));
}
