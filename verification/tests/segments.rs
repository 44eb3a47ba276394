use workshop_timer::duration::DurationError;
use workshop_timer::segments::{build_segments, entries_within_range, SegmentSpec};

fn spec(name: &str, duration: &str, description: Option<&str>) -> SegmentSpec {
    SegmentSpec {
        name: name.to_string(),
        duration: duration.to_string(),
        description: description.map(|d| d.to_string()),
    }
}

#[test]
fn entries_become_segments_in_order() {
    let specs = vec![
        spec("Intro", "5m", None),
        spec("FAQ Agent", "25m", Some("Segment 2 — load FAQ")),
        spec("Q&A", "1:30", None),
    ];
    assert!(entries_within_range(&specs));
    let segs = build_segments(&specs).unwrap();
    assert_eq!(segs.len(), 3);
    assert_eq!(segs[0].name, "Intro");
    assert_eq!(segs[0].duration_secs, 300);
    assert_eq!(segs[0].description, None);
    assert_eq!(segs[1].name, "FAQ Agent");
    assert_eq!(segs[1].duration_secs, 1500);
    assert_eq!(segs[1].description.as_deref(), Some("Segment 2 — load FAQ"));
    assert_eq!(segs[2].duration_secs, 90);
}

#[test]
fn empty_list_is_fine() {
    let segs = build_segments(&Vec::new()).unwrap();
    assert!(segs.is_empty());
}

#[test]
fn first_bad_entry_refuses_the_list() {
    let specs = vec![spec("A", "5m", None), spec("B", "5x", None), spec("C", "", None)];
    let err = match build_segments(&specs) {
        Err(e) => e,
        Ok(_) => panic!("should be refused"),
    };
    assert_eq!(err.index, 1);
    assert_eq!(err.name, "B");
    assert_eq!(err.error, DurationError::UnknownUnit('x'));
    assert_eq!(err.message(), "segment 'B': unknown unit 'x' in '5x'");
}

#[test]
fn overflow_only_matters_where_reading_reaches() {
    let reached = vec![spec("A", "5m", None), spec("B", "9223372036854775807h", None)];
    assert!(!entries_within_range(&reached));
    let not_reached = vec![spec("A", "oops", None), spec("B", "9223372036854775807h", None)];
    assert!(entries_within_range(&not_reached));
    let err = match build_segments(&not_reached) {
        Err(e) => e,
        Ok(_) => panic!("should be refused"),
    };
    assert_eq!(err.message(), "segment 'A': invalid duration 'oops'");
}
