use croniq::ast::Weekday;
use croniq::calendar_args::{parse_annual_arg, parse_monthly_arg, parse_weekly_arg, parse_window_args, AnnualArg};

#[test]
fn weekly_arg_aliases_and_days() {
    assert_eq!(parse_weekly_arg("weekday").unwrap().len(), 5);
    assert_eq!(parse_weekly_arg("weekend").unwrap().len(), 2);
    assert_eq!(parse_weekly_arg("Sun").unwrap(), &[Weekday::Sunday]);
    assert_eq!(
        parse_weekly_arg("funday").unwrap_err(),
        "unknown weekday: funday"
    );
}

#[test]
fn window_args_range_and_pair_forms() {
    let range = parse_window_args(&["08:00..18:00".into()]).unwrap();
    let pair = parse_window_args(&["08:00".into(), "18:00".into()]).unwrap();
    assert_eq!(range, pair);

    assert_eq!(
        parse_window_args(&[]).unwrap_err(),
        "window requires start..end times"
    );
    assert_eq!(
        parse_window_args(&["08:00".into()]).unwrap_err(),
        "invalid window: 08:00"
    );
    assert_eq!(
        parse_window_args(&["a".into(), "b".into(), "c".into()]).unwrap_err(),
        "window expects start..end or start end"
    );
    assert_eq!(
        parse_window_args(&["25:00..26:00".into()]).unwrap_err(),
        "invalid time: 25:00"
    );
}

#[test]
fn monthly_arg_numeric_only() {
    assert_eq!(parse_monthly_arg("15").unwrap(), 15);
    // Out-of-range days parse — runtime parity, the rule is inert.
    assert_eq!(parse_monthly_arg("45").unwrap(), 45);
    assert_eq!(parse_monthly_arg("foo").unwrap_err(), "invalid day: foo");
}

#[test]
fn annual_arg_shapes() {
    assert!(matches!(
        parse_annual_arg("12-25").unwrap(),
        AnnualArg::MonthDay(12, 25)
    ));
    assert!(matches!(
        parse_annual_arg("2026-04-06").unwrap(),
        AnnualArg::Date(_)
    ));
    // Implausible MM-DD still parses — runtime parity.
    assert!(matches!(
        parse_annual_arg("13-45").unwrap(),
        AnnualArg::MonthDay(13, 45)
    ));
    // Len-5 with too many dashes is silently skipped by the runtime.
    assert!(matches!(
        parse_annual_arg("1-2-3").unwrap(),
        AnnualArg::Ignored
    ));
    assert_eq!(
        parse_annual_arg("2026-02-30").unwrap_err(),
        "invalid date: 2026-02-30"
    );
    assert_eq!(
        parse_annual_arg("aa-bb").unwrap_err(),
        "invalid date: aa-bb"
    );
    assert_eq!(
        parse_annual_arg("junk").unwrap_err(),
        "invalid annual date format: junk (expected MM-DD or YYYY-MM-DD)"
    );
    // "12-5" is len 4 — falls through to the format error.
    assert_eq!(
        parse_annual_arg("12-5").unwrap_err(),
        "invalid annual date format: 12-5 (expected MM-DD or YYYY-MM-DD)"
    );
}

#[test]
fn window_minutes_out_of_range_is_invalid() {
    assert_eq!(
        parse_window_args(&["08:00".into(), "08:60".into()]).unwrap_err(),
        "invalid time: 08:60"
    );
    assert_eq!(parse_window_args(&["8".into(), "9:00".into()]).unwrap_err(), "invalid time: 8");
}

#[test]
fn window_args_give_the_hours_and_minutes() {
    let (start, end) = parse_window_args(&["08:30..18:05".into()]).unwrap();
    assert_eq!((start.hour, start.minute), (8, 30));
    assert_eq!((end.hour, end.minute), (18, 5));
}
