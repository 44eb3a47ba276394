use workshop_timer::clock::format_time;
use workshop_timer::duration::parse_duration;

const NS: i128 = 1_000_000_000;

#[test]
fn minutes_and_seconds() {
    assert_eq!(format_time(0), "00:00");
    assert_eq!(format_time(59 * NS), "00:59");
    assert_eq!(format_time(1500 * NS), "25:00");
    assert_eq!(format_time(3599 * NS), "59:59");
}

#[test]
fn hours_appear_past_an_hour() {
    assert_eq!(format_time(3600 * NS), "1:00:00");
    assert_eq!(format_time(3723 * NS), "1:02:03");
    assert_eq!(format_time(36000 * NS), "10:00:00");
}

#[test]
fn fractions_are_cut_off() {
    assert_eq!(format_time(59 * NS + NS - 1), "00:59");
    assert_eq!(format_time(NS / 2), "00:00");
}

#[test]
fn negative_spans_get_a_minus() {
    assert_eq!(format_time(-NS / 2), "-00:00");
    assert_eq!(format_time(-90 * NS), "-01:30");
    assert_eq!(format_time(-3661 * NS), "-1:01:01");
}

#[test]
fn huge_spans_are_capped_at_i64_seconds() {
    assert_eq!(format_time(i128::MAX), format_time(i64::MAX as i128 * NS));
    assert_eq!(format_time(i128::MIN), format!("-{}", format_time(i64::MAX as i128 * NS)));
    assert_eq!(format_time(i64::MAX as i128 * NS), "2562047788015215:30:07");
}

#[test]
fn clock_text_reads_back() {
    for secs in [0i64, 1, 59, 60, 61, 3599, 3600, 3723, 86400, 1_000_000, i64::MAX] {
        let text = format_time(secs as i128 * NS);
        assert_eq!(parse_duration(&text), Ok(secs), "text {}", text);
    }
}

#[test]
fn negative_clock_text_does_not_read_back() {
    let text = format_time(-90 * NS);
    assert_eq!(parse_duration(&text), Ok(-30));
}
