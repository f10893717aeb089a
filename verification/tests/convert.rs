use croniq::convert::convert;


fn conv(expr: &str) -> String {
    convert(expr).unwrap().schedule
}

fn conv_warn(expr: &str) -> (String, Vec<String>) {
    let r = convert(expr).unwrap();
    (r.schedule, r.warnings)
}

// ── Step intervals ────────────────────────────────────────────────────────

#[test]
fn every_minute() {
    assert_eq!(conv("* * * * *"), "every 1 minutes");
}

#[test]
fn every_5_minutes() {
    assert_eq!(conv("*/5 * * * *"), "every 5 minutes");
}

#[test]
fn every_15_minutes() {
    assert_eq!(conv("*/15 * * * *"), "every 15 minutes");
}

#[test]
fn every_30_minutes() {
    assert_eq!(conv("*/30 * * * *"), "every 30 minutes");
}

#[test]
fn every_hour() {
    assert_eq!(conv("0 * * * *"), "every 1 hours");
}

#[test]
fn every_2_hours() {
    assert_eq!(conv("0 */2 * * *"), "every 2 hours");
}

#[test]
fn every_6_hours() {
    assert_eq!(conv("0 */6 * * *"), "every 6 hours");
}

// ── Daily ─────────────────────────────────────────────────────────────────

#[test]
fn daily_at_midnight() {
    assert_eq!(conv("0 0 * * *"), "every day at 00:00");
}

#[test]
fn daily_at_9am() {
    assert_eq!(conv("0 9 * * *"), "every day at 09:00");
}

#[test]
fn daily_at_2am_30min() {
    assert_eq!(conv("30 2 * * *"), "every day at 02:30");
}

// ── Weekday patterns ──────────────────────────────────────────────────────

#[test]
fn every_monday() {
    assert_eq!(conv("0 9 * * 1"), "every monday at 09:00");
}

#[test]
fn every_friday() {
    assert_eq!(conv("0 17 * * 5"), "every friday at 17:00");
}

#[test]
fn weekdays() {
    assert_eq!(conv("0 9 * * 1-5"), "every weekday at 09:00");
}

#[test]
fn mon_wed_fri() {
    assert_eq!(
        conv("0 9 * * 1,3,5"),
        "every monday wednesday friday at 09:00"
    );
}

#[test]
fn every_weekend() {
    assert_eq!(conv("0 10 * * 6,0"), "every weekend at 10:00");
}

#[test]
fn dow_by_name() {
    assert_eq!(conv("0 8 * * Mon"), "every monday at 08:00");
}

// ── Monthly patterns ──────────────────────────────────────────────────────

#[test]
fn first_of_month() {
    assert_eq!(conv("0 3 1 * *"), "every 1st of month at 03:00");
}

#[test]
fn fifteenth_of_month() {
    assert_eq!(conv("0 6 15 * *"), "every 15th of month at 06:00");
}

#[test]
fn first_and_fifteenth() {
    assert_eq!(conv("0 10 1,15 * *"), "every 1st 15th of month at 10:00");
}

#[test]
fn last_of_month() {
    assert_eq!(conv("0 23 L * *"), "every last of month at 23:00");
}

#[test]
fn eleventh_of_month_has_th_suffix() {
    assert_eq!(conv("0 0 11 * *"), "every 11th of month at 00:00");
}

#[test]
fn twenty_second_has_nd_suffix() {
    assert_eq!(conv("0 0 22 * *"), "every 22nd of month at 00:00");
}

// ── @-macros ──────────────────────────────────────────────────────────────

#[test]
fn at_daily() {
    assert_eq!(conv("@daily"), "every day at 00:00");
}

#[test]
fn at_midnight() {
    assert_eq!(conv("@midnight"), "every day at 00:00");
}

#[test]
fn at_hourly() {
    assert_eq!(conv("@hourly"), "every 1 hours");
}

#[test]
fn at_weekly() {
    assert_eq!(conv("@weekly"), "every monday at 00:00");
}

#[test]
fn at_monthly() {
    assert_eq!(conv("@monthly"), "every 1st of month at 00:00");
}

#[test]
fn at_yearly_emits_warning() {
    let (sched, warnings) = conv_warn("@yearly");
    assert_eq!(sched, "every 1st of month at 00:00");
    assert!(!warnings.is_empty());
    assert!(warnings[0].contains("@yearly"));
}

// ── Warnings ──────────────────────────────────────────────────────────────

#[test]
fn dom_and_dow_emits_warning() {
    let (sched, warnings) = conv_warn("0 9 1 * 1");
    // Uses dow (monday) as primary, warns about ambiguity
    assert_eq!(sched, "every monday at 09:00");
    assert!(!warnings.is_empty());
    assert!(warnings[0].contains("dom OR dow"));
}

// ── Errors ────────────────────────────────────────────────────────────────

#[test]
fn wrong_field_count_is_error() {
    assert!(convert("* * * *").is_err());
    assert!(convert("* * * * * *").is_err());
}

#[test]
fn unknown_at_macro_is_error() {
    assert!(convert("@reboot").is_err());
}

#[test]
fn invalid_dow_is_error() {
    assert!(convert("0 9 * * Funday").is_err());
}

#[test]
fn step_with_bad_value_is_error() {
    assert_eq!(convert("*/x * * * *").unwrap_err(), "invalid step value in '*/x'");
}

#[test]
fn field_count_error_reports_count() {
    assert_eq!(
        convert("* * * *").unwrap_err(),
        "expected 5 fields (minute hour dom month dow), got 4"
    );
}

#[test]
fn dom_out_of_range_is_error() {
    assert_eq!(convert("0 3 32 * *").unwrap_err(), "day-of-month 32 out of range (1–31)");
    assert_eq!(convert("0 3 x * *").unwrap_err(), "invalid day-of-month value 'x'");
}

#[test]
fn unknown_dow_error_quotes_lowercased_value() {
    assert_eq!(convert("0 9 * * Funday").unwrap_err(), "unknown day-of-week value 'funday'");
}

#[test]
fn whole_week_and_surrounding_space() {
    assert_eq!(conv("  0 9 * * 0-6 \n"), "every day at 09:00");
    assert_eq!(conv("0 9 * * 2,4"), "every tuesday thursday at 09:00");
    assert_eq!(conv("0 9 * * 6-7"), "every weekend at 09:00");
}

#[test]
fn ordinal_suffixes() {
    assert_eq!(conv("0 0 2,3,12,13,21,23,31 * *"), "every 2nd 3rd 12th 13th 21st 23rd 31st of month at 00:00");
}

#[test]
fn ranges_in_time_fields_are_not_supported() {
    assert_eq!(
        convert("0-5 9 * * *").unwrap_err(),
        "Could not convert '0-5 9 * * *' to a Croniq schedule. Supported patterns: */N (step intervals), fixed time-of-day with weekday or dom constraints. Complex expressions with ranges or lists in the time fields are not supported."
    );
}

#[test]
fn convert_rejects_hour_outside_a_day() {
    let e = convert("0 25 * * *").unwrap_err();
    assert_eq!(e, "hour '25' is out of range (0-23)");
}

#[test]
fn convert_rejects_minute_outside_an_hour() {
    let e = convert("60 9 * * *").unwrap_err();
    assert_eq!(e, "minute '60' is out of range (0-59)");
    assert_eq!(convert("59 23 * * *").unwrap().schedule, "every day at 23:59");
}
