use systemd_manager::{parse_analyze, parse_blame, parse_time, Analyze};

#[test]
fn test_analyze_minutes() {
    let correct = Analyze { time: 218514, service: String::from("updatedb.service") };
    assert_eq!(correct, parse_analyze("3min 38.514s updatedb.service"));
}

#[test]
fn test_analyze_seconds() {
    let correct = Analyze { time: 15443, service: String::from("openntpd.service") };
    assert_eq!(correct, parse_analyze("15.443s openntpd.service"));
}

#[test]
fn test_analyze_milliseconds() {
    let correct = Analyze { time: 1989, service: String::from("systemd-sysctl.service") };
    assert_eq!(correct, parse_analyze("1989ms systemd-sysctl.service"));
}

#[test]
fn analyze_line_with_surrounding_space() {
    let parsed = parse_analyze("   \t 2.5s  1min   foo.service  ");
    assert_eq!(parsed, Analyze { time: 62500, service: String::from("foo.service") });
}

#[test]
fn analyze_line_with_only_a_name() {
    assert_eq!(parse_analyze("bar.service"), Analyze { time: 0, service: String::from("bar.service") });
}

#[test]
fn time_in_milliseconds() {
    assert_eq!(parse_time("1989ms"), 1989);
    assert_eq!(parse_time("+7ms"), 7);
    assert_eq!(parse_time("0ms"), 0);
}

#[test]
fn time_in_seconds_rounds_down_to_milliseconds() {
    assert_eq!(parse_time("38.514s"), 38514);
    assert_eq!(parse_time("1.9999s"), 1999);
    assert_eq!(parse_time(".5s"), 500);
    assert_eq!(parse_time("5.s"), 5000);
    assert_eq!(parse_time("12s"), 12000);
}

#[test]
fn time_in_minutes() {
    assert_eq!(parse_time("3min"), 180000);
    assert_eq!(parse_time("0min"), 0);
}

#[test]
fn time_that_cannot_be_read_is_zero() {
    assert_eq!(parse_time("2h"), 0);
    assert_eq!(parse_time("abc"), 0);
    assert_eq!(parse_time("s"), 0);
    assert_eq!(parse_time("ms"), 0);
    assert_eq!(parse_time("1.2.3s"), 0);
    assert_eq!(parse_time("-5ms"), 0);
    assert_eq!(parse_time(""), 0);
    assert_eq!(parse_time("4294967296ms"), 0);
}

#[test]
fn time_is_capped_at_the_largest_u32() {
    assert_eq!(parse_time("4294967295ms"), u32::MAX);
    assert_eq!(parse_time("4294967296s"), u32::MAX);
    assert_eq!(parse_time("99999999999999999999.5s"), u32::MAX);
    assert_eq!(parse_time("100000min"), u32::MAX);
    assert_eq!(parse_analyze("4294967295ms 1ms x.service").time, u32::MAX);
}

#[test]
fn blame_report_is_read_last_line_first() {
    let report = "3min 38.514s updatedb.service\n15.443s openntpd.service\r\n\n   \n1989ms systemd-sysctl.service\n";
    let entries = parse_blame(report);
    assert_eq!(
        entries,
        vec![
            Analyze { time: 1989, service: String::from("systemd-sysctl.service") },
            Analyze { time: 15443, service: String::from("openntpd.service") },
            Analyze { time: 218514, service: String::from("updatedb.service") },
        ]
    );
}

#[test]
fn empty_blame_report_has_no_entries() {
    assert!(parse_blame("").is_empty());
    assert!(parse_blame("\n\n").is_empty());
}
