//! What the overlay shows of the countdown: the status dot, the segment
//! label, the hover text, the play/pause button and the agenda.

use vstd::prelude::*;
use crate::clock::{format_time, time_text, NANOS_PER_SEC};
use crate::duration::in_i64;
use crate::number::{decimal, push_char, push_decimal};
use crate::segments::{clone_opt_text, opt_text};
use crate::timer::{secs_to_nanos, SegmentView, Timer, TimerView};

verus! {

/// The colour of the status dot.
#[derive(Clone, Copy, Debug, PartialEq, Eq, Structural)]
pub enum Status {
    /// The current segment has run out.
    Over,
    Paused,
    Running,
}

/// There are segments and the current one has no time left.
pub open spec fn is_over_spec(t: TimerView) -> bool {
    t.segments.len() > 0 && t.remaining <= 0
}

pub open spec fn status_spec(t: TimerView) -> Status {
    if is_over_spec(t) {
        Status::Over
    } else if t.paused {
        Status::Paused
    } else {
        Status::Running
    }
}

/// `n/total name` for the current segment, `load error` after a failed load,
/// `No segments` when there is no current segment.
pub open spec fn name_label_text(t: TimerView) -> Seq<char> {
    if t.error is Some {
        "load error"@
    } else if 0 <= t.idx < t.segments.len() {
        decimal((t.idx + 1) as nat) + seq!['/'] + decimal(t.segments.len()) + seq![' ']
            + t.segments[t.idx].name
    } else {
        "No segments"@
    }
}

/// The configuration path as shown, `<none>` without one.
pub open spec fn config_text(config: Option<Seq<char>>) -> Seq<char> {
    match config {
        Some(c) => c,
        None => "<none>"@,
    }
}

/// After a failed load its message; else the current segment's description
/// (if any), duration, a hint and the configuration path, one per line; else
/// the hint and the path.
pub open spec fn hover_text_spec(t: TimerView, config: Option<Seq<char>>) -> Seq<char> {
    match t.error {
        Some(e) => e,
        None => if 0 <= t.idx < t.segments.len() {
            let seg = t.segments[t.idx];
            let rest = "Duration: "@ + time_text(secs_to_nanos(seg.duration_secs))
                + "\nRight-click for menu\nConfig: "@ + config_text(config);
            match seg.description {
                Some(d) => d + seq!['\n'] + rest,
                None => rest,
            }
        } else {
            "Right-click for menu\nConfig: "@ + config_text(config)
        },
    }
}

pub open spec fn opt_str(o: Option<&str>) -> Option<Seq<char>> {
    match o {
        Some(s) => Some(s@),
        None => None,
    }
}

/// The sum of the durations, in seconds.
pub open spec fn duration_total(segs: Seq<SegmentView>) -> int
    decreases segs.len(),
{
    if segs.len() == 0 {
        0
    } else {
        duration_total(segs.drop_last()) + segs.last().duration_secs
    }
}

/// Adding the durations up in order never leaves the range of `i64`.
pub open spec fn sums_in_range(segs: Seq<SegmentView>) -> bool {
    forall|k: int| 0 <= k <= segs.len() ==> in_i64(#[trigger] duration_total(segs.take(k)))
}

/// Where a segment stands in the agenda.
#[derive(Clone, Copy, Debug, PartialEq, Eq, Structural)]
pub enum RowMarker {
    Current,
    Done,
    Upcoming,
}

impl RowMarker {
    /// The glyph in front of the row.
    pub fn glyph(&self) -> (r: &'static str)
        ensures
            r@ == (match self {
                RowMarker::Current => "\u{25B6}"@,
                RowMarker::Done => "\u{2713}"@,
                RowMarker::Upcoming => "  "@,
            }),
    {
        match self {
            RowMarker::Current => "\u{25B6}",
            RowMarker::Done => "\u{2713}",
            RowMarker::Upcoming => "  ",
        }
    }
}

pub open spec fn marker_spec(i: int, current: int) -> RowMarker {
    if i == current {
        RowMarker::Current
    } else if i < current {
        RowMarker::Done
    } else {
        RowMarker::Upcoming
    }
}

/// One row of the agenda.
#[derive(Debug)]
pub struct AgendaRow {
    pub marker: RowMarker,
    /// `n.`
    pub number: String,
    pub name: String,
    pub description: Option<String>,
    /// The segment's duration as clock text.
    pub duration: String,
    /// `@` and the sum of the durations before it, as clock text.
    pub start: String,
}

/// The agenda: `Total: ` and the sum of all durations, then one row per
/// segment.
#[derive(Debug)]
pub struct Agenda {
    pub total: String,
    pub rows: Vec<AgendaRow>,
}

/// Row `i` of the agenda of `t`.
pub open spec fn agenda_row_ok(t: TimerView, i: int, row: AgendaRow) -> bool {
    &&& row.marker == marker_spec(i, t.idx)
    &&& row.number@ == decimal((i + 1) as nat) + seq!['.']
    &&& row.name@ == t.segments[i].name
    &&& opt_text(row.description) == t.segments[i].description
    &&& row.duration@ == time_text(secs_to_nanos(t.segments[i].duration_secs))
    &&& row.start@ == seq!['@'] + time_text(secs_to_nanos(duration_total(t.segments.take(i))))
}

impl Timer {
    /// The current segment has run out.
    pub fn is_over(&self) -> (r: bool)
        ensures
            r == is_over_spec(self@),
    {
        self.segments.len() > 0 && self.remaining <= 0
    }

    /// The status dot.
    pub fn status(&self) -> (r: Status)
        ensures
            r == status_spec(self@),
    {
        if self.is_over() {
            Status::Over
        } else if self.paused {
            Status::Paused
        } else {
            Status::Running
        }
    }

    /// The glyph and tooltip of the play/pause button.
    pub fn pause_button(&self) -> (r: (&'static str, &'static str))
        ensures
            r.0@ == (if self.paused {
                "\u{25B6}"@
            } else {
                "\u{23F8}"@
            }),
            r.1@ == (if self.paused {
                "Play"@
            } else {
                "Pause"@
            }),
    {
        if self.paused {
            ("\u{25B6}", "Play")
        } else {
            ("\u{23F8}", "Pause")
        }
    }

    /// The segment label of the bar.
    pub fn name_label(&self) -> (r: String)
        ensures
            r@ == name_label_text(self@),
    {
        if self.error.is_some() {
            String::from_str("load error")
        } else if self.idx < self.segments.len() {
            let mut s = String::new();
            push_decimal(&mut s, self.idx as u64 + 1);
            push_char(&mut s, '/');
            push_decimal(&mut s, self.segments.len() as u64);
            push_char(&mut s, ' ');
            s.append(self.segments[self.idx].name.as_str());
            proof {
                assert(s@ =~= name_label_text(self@));
            }
            s
        } else {
            String::from_str("No segments")
        }
    }

    /// Whether the agenda may be drawn: adding the durations up in order
    /// stays within `i64`.
    pub fn durations_fit(&self) -> (r: bool)
        ensures
            r == sums_in_range(self@.segments),
    {
        let ghost segs = self@.segments;
        let mut sum: i64 = 0;
        let mut i: usize = 0;
        assert(segs.take(0) =~= Seq::<SegmentView>::empty());
        while i < self.segments.len()
            invariant
                i <= self.segments.len(),
                segs == self@.segments,
                segs.len() == self.segments.len(),
                sum as int == duration_total(segs.take(i as int)),
                forall|k: int| 0 <= k <= i ==> in_i64(#[trigger] duration_total(segs.take(k))),
            decreases self.segments.len() - i,
        {
            assert(segs.take(i + 1).drop_last() =~= segs.take(i as int));
            assert(segs[i as int] == self.segments@[i as int]@);
            let next: i128 = sum as i128 + self.segments[i].duration_secs as i128;
            if next < i64::MIN as i128 || next > i64::MAX as i128 {
                assert(!in_i64(duration_total(segs.take(i + 1))));
                return false;
            }
            sum = next as i64;
            i = i + 1;
        }
        true
    }

    /// The agenda window's content.
    pub fn agenda(&self) -> (r: Agenda)
        requires
            sums_in_range(self@.segments),
        ensures
            r.total@ == "Total: "@ + time_text(secs_to_nanos(duration_total(self@.segments))),
            r.rows.len() == self.segments.len(),
            forall|i: int| 0 <= i < r.rows.len() ==> agenda_row_ok(self@, i, #[trigger] r.rows@[i]),
    {
        let ghost segs = self@.segments;
        let mut rows: Vec<AgendaRow> = Vec::new();
        let mut cumulative: i64 = 0;
        let mut i: usize = 0;
        assert(segs.take(0) =~= Seq::<SegmentView>::empty());
        while i < self.segments.len()
            invariant
                i <= self.segments.len(),
                segs == self@.segments,
                segs.len() == self.segments.len(),
                sums_in_range(segs),
                cumulative as int == duration_total(segs.take(i as int)),
                rows.len() == i,
                forall|k: int| 0 <= k < i ==> agenda_row_ok(self@, k, #[trigger] rows@[k]),
            decreases self.segments.len() - i,
        {
            let seg = &self.segments[i];
            assert(segs[i as int] == self.segments@[i as int]@);
            let mut number = String::new();
            push_decimal(&mut number, i as u64 + 1);
            push_char(&mut number, '.');
            let mut start = String::new();
            push_char(&mut start, '@');
            let when = format_time(cumulative as i128 * NANOS_PER_SEC);
            start.append(when.as_str());
            let marker = if i == self.idx {
                RowMarker::Current
            } else if i < self.idx {
                RowMarker::Done
            } else {
                RowMarker::Upcoming
            };
            let row = AgendaRow {
                marker,
                number,
                name: seg.name.clone(),
                description: clone_opt_text(&seg.description),
                duration: format_time(seg.duration_secs as i128 * NANOS_PER_SEC),
                start,
            };
            assert(row.start@ =~= seq!['@'] + time_text(
                secs_to_nanos(duration_total(segs.take(i as int))),
            ));
            assert(row.number@ =~= decimal((i + 1) as nat) + seq!['.']);
            assert(agenda_row_ok(self@, i as int, row));
            let ghost old_rows = rows@;
            rows.push(row);
            assert forall|k: int| 0 <= k < i + 1 implies agenda_row_ok(
                self@,
                k,
                #[trigger] rows@[k],
            ) by {
                if k < i {
                    assert(rows@[k] == old_rows[k]);
                }
            }
            assert(segs.take(i + 1).drop_last() =~= segs.take(i as int));
            assert(in_i64(duration_total(segs.take(i + 1))));
            cumulative = cumulative + seg.duration_secs;
            i = i + 1;
        }
        assert(segs.take(i as int) =~= segs);
        let mut total = String::from_str("Total: ");
        let t = format_time(cumulative as i128 * NANOS_PER_SEC);
        total.append(t.as_str());
        Agenda { total, rows }
    }

    /// The tooltip of the segment label, given the configuration path as
    /// shown.
    pub fn hover_text(&self, config: Option<&str>) -> (r: String)
        ensures
            r@ == hover_text_spec(self@, opt_str(config)),
    {
        let cfg = match config {
            Some(c) => c,
            None => "<none>",
        };
        match &self.error {
            Some(e) => e.clone(),
            None => {
                if self.idx < self.segments.len() {
                    let seg = &self.segments[self.idx];
                    let mut s = String::new();
                    match &seg.description {
                        Some(d) => {
                            s.append(d.as_str());
                            push_char(&mut s, '\n');
                        },
                        None => {},
                    }
                    s.append("Duration: ");
                    let dur = format_time(seg.duration_secs as i128 * NANOS_PER_SEC);
                    s.append(dur.as_str());
                    s.append("\nRight-click for menu\nConfig: ");
                    s.append(cfg);
                    proof {
                        assert(s@ =~= hover_text_spec(self@, opt_str(config)));
                    }
                    s
                } else {
                    let mut s = String::from_str("Right-click for menu\nConfig: ");
                    s.append(cfg);
                    s
                }
            },
        }
    }
}

} // verus!
