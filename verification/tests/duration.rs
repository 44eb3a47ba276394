use workshop_timer::duration::{evaluate_duration, parse_duration, DurationError, DurationEval};

#[test]
fn readme_unit_forms() {
    assert_eq!(parse_duration("25m"), Ok(1500));
    assert_eq!(parse_duration("1h30m"), Ok(5400));
    assert_eq!(parse_duration("90s"), Ok(90));
}

#[test]
fn readme_colon_forms() {
    assert_eq!(parse_duration("05:30"), Ok(330));
    assert_eq!(parse_duration("1:02:03"), Ok(3723));
    assert_eq!(parse_duration("00:45"), Ok(45));
}

#[test]
fn unit_letters_in_either_case() {
    assert_eq!(parse_duration("1H30M"), Ok(5400));
    assert_eq!(parse_duration("2M 5S"), Ok(125));
}

#[test]
fn white_space_is_ignored() {
    assert_eq!(parse_duration("  10m  "), Ok(600));
    assert_eq!(parse_duration("1h 30m"), Ok(5400));
    assert_eq!(parse_duration("1 2m"), Ok(720));
    assert_eq!(parse_duration("\t 1 : 30 \n"), Ok(90));
    assert_eq!(parse_duration("\u{3000}5m\u{a0}"), Ok(300));
}

#[test]
fn trailing_number_counts_as_seconds() {
    assert_eq!(parse_duration("45"), Ok(45));
    assert_eq!(parse_duration("1m 5"), Ok(65));
    assert_eq!(parse_duration("007s"), Ok(7));
}

#[test]
fn repeated_units_add_up() {
    assert_eq!(parse_duration("1m1m"), Ok(120));
    assert_eq!(parse_duration("30s1h"), Ok(3630));
}

#[test]
fn empty_is_refused() {
    assert_eq!(parse_duration(""), Err(DurationError::Empty));
    assert_eq!(parse_duration("   "), Err(DurationError::Empty));
}

#[test]
fn unit_without_number_is_refused() {
    assert_eq!(parse_duration("m"), Err(DurationError::Invalid));
    assert_eq!(parse_duration("abc"), Err(DurationError::Invalid));
    assert_eq!(parse_duration("1m m"), Err(DurationError::Invalid));
    assert_eq!(parse_duration("-5m"), Err(DurationError::Invalid));
}

#[test]
fn unknown_unit_is_refused() {
    assert_eq!(parse_duration("10x"), Err(DurationError::UnknownUnit('x')));
    assert_eq!(parse_duration("3d"), Err(DurationError::UnknownUnit('d')));
    assert_eq!(parse_duration("5min"), Err(DurationError::Invalid));
}

#[test]
fn zero_unit_form_is_refused() {
    assert_eq!(parse_duration("0m"), Err(DurationError::NotPositive));
    assert_eq!(parse_duration("0"), Err(DurationError::NotPositive));
    assert_eq!(parse_duration("0h0m0s"), Err(DurationError::NotPositive));
}

#[test]
fn colon_form_field_count() {
    assert_eq!(parse_duration("1:2:3:4"), Err(DurationError::InvalidColon));
    assert_eq!(parse_duration("1:2:3:x"), Err(DurationError::Invalid));
    assert_eq!(parse_duration("a:b"), Err(DurationError::Invalid));
    assert_eq!(parse_duration(":30"), Err(DurationError::Invalid));
    assert_eq!(parse_duration("5:"), Err(DurationError::Invalid));
}

#[test]
fn colon_form_takes_signs_and_zero() {
    assert_eq!(parse_duration("0:00"), Ok(0));
    assert_eq!(parse_duration("-1:00"), Ok(-60));
    assert_eq!(parse_duration("+1:-30"), Ok(30));
    assert_eq!(parse_duration("0:90"), Ok(90));
}

#[test]
fn numbers_beyond_i64_are_refused() {
    assert_eq!(parse_duration("9223372036854775807"), Ok(i64::MAX));
    assert_eq!(parse_duration("9223372036854775808"), Err(DurationError::Invalid));
    assert_eq!(parse_duration("99999999999999999999s"), Err(DurationError::Invalid));
    assert_eq!(parse_duration("1:9223372036854775808"), Err(DurationError::Invalid));
}

#[test]
fn overflow_is_reported_by_evaluate() {
    assert_eq!(evaluate_duration("9223372036854775807h"), DurationEval::Overflow);
    assert_eq!(evaluate_duration("9223372036854775807s1s"), DurationEval::Overflow);
    assert_eq!(evaluate_duration("9223372036854775807"), DurationEval::Secs(i64::MAX));
    assert_eq!(evaluate_duration("153722867280912931:00"), DurationEval::Overflow);
    assert_eq!(evaluate_duration("2562047788015216:00:00"), DurationEval::Overflow);
    assert_eq!(evaluate_duration("1x 9223372036854775807h"), DurationEval::Failed(DurationError::UnknownUnit('x')));
    assert_eq!(evaluate_duration("25m"), DurationEval::Secs(1500));
}

#[test]
fn messages() {
    assert_eq!(DurationError::Empty.message(" "), "empty duration");
    assert_eq!(DurationError::Invalid.message(" x"), "invalid duration ' x'");
    assert_eq!(DurationError::InvalidColon.message("1:2:3:4"), "invalid colon duration '1:2:3:4'");
    assert_eq!(DurationError::UnknownUnit('x').message("10x"), "unknown unit 'x' in '10x'");
    assert_eq!(DurationError::NotPositive.message("0m"), "duration must be positive: '0m'");
}

#[test]
fn unit_parts_add_up() {
    let pairs = [("1h", "30m"), ("90s", "1m"), ("2m", "3"), ("1H", "1h 1m 1s"), ("5s", "5s")];
    for (a, b) in pairs {
        let joined = format!("{}{}", a, b);
        assert_eq!(
            parse_duration(&joined),
            Ok(parse_duration(a).unwrap() + parse_duration(b).unwrap()),
            "{} + {}",
            a,
            b
        );
    }
}

#[test]
fn surrounding_white_space_changes_nothing() {
    for s in ["25m", "1:30", "x", "", "0", "1:2:3:4", " 2h "] {
        let padded = format!(" \t\u{2003}{}\n\u{3000}", s);
        assert_eq!(evaluate_duration(&padded), evaluate_duration(s), "{:?}", s);
    }
}

#[test]
fn unit_form_results_are_positive() {
    for s in ["1s", "0m1s", "00000000001", "1h0m0s"] {
        assert!(parse_duration(s).unwrap() > 0);
    }
}

#[test]
fn unit_parts_add_up_with_white_space_around() {
    let pairs = [(" 1h ", " 30m "), ("\t2m\n", "5"), ("1 h", " 1 s ")];
    for (a, b) in pairs {
        let joined = format!("{}{}", a, b);
        assert_eq!(
            parse_duration(&joined),
            Ok(parse_duration(a).unwrap() + parse_duration(b).unwrap()),
            "{:?} + {:?}",
            a,
            b
        );
    }
}
