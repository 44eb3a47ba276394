use workshop_timer::overlay::{RowMarker, Status};
use workshop_timer::segments::Segment;
use workshop_timer::timer::Timer;

const NS: i128 = 1_000_000_000;

fn seg(name: &str, secs: i64, description: Option<&str>) -> Segment {
    Segment { name: name.to_string(), description: description.map(|d| d.to_string()), duration_secs: secs }
}

fn loaded() -> Timer {
    let mut t = Timer::new();
    t.apply_load(Ok(vec![seg("Intro", 300, None), seg("FAQ Agent", 1500, Some("load FAQ")), seg("Q&A", 600, None)]));
    t
}

#[test]
fn new_timer_is_empty_and_paused() {
    let t = Timer::new();
    assert!(t.segments.is_empty());
    assert!(t.paused);
    assert_eq!(t.idx, 0);
    assert_eq!(t.remaining, 0);
    assert_eq!(t.name_label(), "No segments");
    assert_eq!(t.status(), Status::Paused);
    assert!(!t.is_over());
}

#[test]
fn load_starts_at_first_segment_paused() {
    let t = loaded();
    assert_eq!(t.idx, 0);
    assert!(t.paused);
    assert_eq!(t.remaining, 300 * NS);
    assert_eq!(t.error, None);
    assert_eq!(t.name_label(), "1/3 Intro");
}

#[test]
fn failed_load_clears_segments_and_keeps_the_rest() {
    let mut t = loaded();
    t.goto(2);
    t.apply_load(Err("yaml parse error: bad".to_string()));
    assert!(t.segments.is_empty());
    assert_eq!(t.idx, 2);
    assert_eq!(t.remaining, 600 * NS);
    assert!(!t.paused);
    assert_eq!(t.error.as_deref(), Some("yaml parse error: bad"));
    assert_eq!(t.name_label(), "load error");
    assert_eq!(t.hover_text(Some("/x/segments.yaml")), "yaml parse error: bad");
    assert!(!t.is_over());
    t.goto(1);
    t.toggle_pause();
    t.tick(7);
    assert!(t.segments.is_empty());
    assert!(t.error.is_some());
}

#[test]
fn goto_clamps_and_starts_the_clock() {
    let mut t = loaded();
    t.goto(1);
    assert_eq!((t.idx, t.remaining, t.paused), (1, 1500 * NS, false));
    t.goto(99);
    assert_eq!((t.idx, t.remaining), (2, 600 * NS));
    t.goto(-5);
    assert_eq!((t.idx, t.remaining), (0, 300 * NS));
    t.goto(i64::MAX);
    assert_eq!(t.idx, 2);
    t.goto(i64::MIN);
    assert_eq!(t.idx, 0);
}

#[test]
fn goto_twice_is_goto_once() {
    let mut a = loaded();
    a.goto(1);
    a.tick(5);
    let mut b = loaded();
    b.goto(1);
    b.goto(1);
    assert_eq!((a.idx, b.idx), (1, 1));
    a.goto(1);
    assert_eq!((a.idx, a.remaining, a.paused, a.last_tick), (b.idx, b.remaining, b.paused, b.last_tick));
}

#[test]
fn goto_without_segments_does_nothing() {
    let mut t = Timer::new();
    t.goto(3);
    assert_eq!((t.idx, t.paused, t.remaining), (0, true, 0));
}

#[test]
fn toggle_flips_and_twice_restores() {
    let mut t = loaded();
    t.toggle_pause();
    assert!(!t.paused);
    t.toggle_pause();
    assert!(t.paused);
    let mut e = Timer::new();
    e.toggle_pause();
    assert!(e.paused);
}

#[test]
fn running_clock_counts_down_per_frame() {
    let mut t = loaded();
    t.toggle_pause();
    t.tick(1_000);
    assert_eq!(t.remaining, 300 * NS);
    t.tick(1_000 + 2 * NS as u64);
    assert_eq!(t.remaining, 298 * NS);
    t.tick(1_000 + 3 * NS as u64);
    assert_eq!(t.remaining, 297 * NS);
}

#[test]
fn ticks_compose() {
    let mut a = loaded();
    a.toggle_pause();
    a.tick(0);
    a.tick(400);
    a.tick(1_000);
    let mut b = loaded();
    b.toggle_pause();
    b.tick(0);
    b.tick(1_000);
    assert_eq!(a.remaining, b.remaining);
    assert_eq!(a.remaining, 300 * NS - 1_000);
}

#[test]
fn paused_clock_stands_still() {
    let mut t = loaded();
    t.tick(0);
    t.tick(10 * NS as u64);
    assert_eq!(t.remaining, 300 * NS);
    assert_eq!(t.last_tick, Some(10 * NS as u64));
}

#[test]
fn clock_going_backwards_costs_nothing() {
    let mut t = loaded();
    t.toggle_pause();
    t.tick(100);
    t.tick(50);
    assert_eq!(t.remaining, 300 * NS);
}

#[test]
fn toggling_forgets_the_last_frame() {
    let mut t = loaded();
    t.toggle_pause();
    t.tick(0);
    t.toggle_pause();
    t.toggle_pause();
    t.tick(100 * NS as u64);
    assert_eq!(t.remaining, 300 * NS);
}

#[test]
fn running_over_blinks_red() {
    let mut t = loaded();
    t.goto(0);
    t.tick(0);
    t.tick(300 * NS as u64);
    assert!(t.is_over());
    assert_eq!(t.status(), Status::Over);
    t.tick(301 * NS as u64);
    assert_eq!(t.remaining, -NS);
    t.goto(1);
    assert_eq!(t.status(), Status::Running);
}

#[test]
fn pause_button_follows_state() {
    let mut t = loaded();
    assert_eq!(t.pause_button(), ("\u{25B6}", "Play"));
    t.toggle_pause();
    assert_eq!(t.pause_button(), ("\u{23F8}", "Pause"));
}

#[test]
fn hover_text_lists_description_duration_hint_and_config() {
    let mut t = loaded();
    t.goto(1);
    assert_eq!(
        t.hover_text(Some("/w/segments.yaml")),
        "load FAQ\nDuration: 25:00\nRight-click for menu\nConfig: /w/segments.yaml"
    );
    t.goto(0);
    assert_eq!(t.hover_text(None), "Duration: 05:00\nRight-click for menu\nConfig: <none>");
    let e = Timer::new();
    assert_eq!(e.hover_text(None), "Right-click for menu\nConfig: <none>");
}

#[test]
fn label_counts_from_one() {
    let mut t = loaded();
    t.goto(2);
    assert_eq!(t.name_label(), "3/3 Q&A");
}

#[test]
fn agenda_rows_markers_and_offsets() {
    let mut t = loaded();
    t.goto(1);
    assert!(t.durations_fit());
    let a = t.agenda();
    assert_eq!(a.total, "Total: 40:00");
    assert_eq!(a.rows.len(), 3);
    assert_eq!(a.rows[0].marker, RowMarker::Done);
    assert_eq!(a.rows[1].marker, RowMarker::Current);
    assert_eq!(a.rows[2].marker, RowMarker::Upcoming);
    assert_eq!(a.rows[0].marker.glyph(), "\u{2713}");
    assert_eq!(a.rows[1].marker.glyph(), "\u{25B6}");
    assert_eq!(a.rows[2].marker.glyph(), "  ");
    assert_eq!(a.rows[0].number, "1.");
    assert_eq!(a.rows[2].number, "3.");
    assert_eq!(a.rows[1].name, "FAQ Agent");
    assert_eq!(a.rows[1].description.as_deref(), Some("load FAQ"));
    assert_eq!(a.rows[1].duration, "25:00");
    assert_eq!(a.rows[0].start, "@00:00");
    assert_eq!(a.rows[1].start, "@05:00");
    assert_eq!(a.rows[2].start, "@30:00");
}

#[test]
fn durations_that_overflow_do_not_fit() {
    let mut t = Timer::new();
    t.apply_load(Ok(vec![seg("A", i64::MAX, None), seg("B", 1, None)]));
    assert!(!t.durations_fit());
    t.apply_load(Ok(vec![seg("A", i64::MAX, None), seg("B", -1, None)]));
    assert!(t.durations_fit());
}

#[test]
fn current_segment_stays_in_the_list() {
    let mut t = loaded();
    let targets = [5i64, -1, 1, 2, 0, 7];
    for x in targets {
        t.goto(x);
        t.toggle_pause();
        t.tick(x.unsigned_abs());
        assert!(t.idx < t.segments.len());
    }
    t.apply_load(Ok(vec![seg("Only", 10, None)]));
    assert_eq!(t.idx, 0);
    assert_eq!(t.remaining, 10 * NS);
}
