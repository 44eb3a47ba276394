//! The countdown: which segment is current, how much of it is left, whether
//! the clock runs, and what loading a segment list does to all that.

use vstd::prelude::*;
use crate::clock::NANOS_PER_SEC;
use crate::segments::{opt_text, Segment};

verus! {

/// A segment as the contracts see it.
pub struct SegmentView {
    pub name: Seq<char>,
    pub description: Option<Seq<char>>,
    pub duration_secs: int,
}

impl View for Segment {
    type V = SegmentView;

    open spec fn view(&self) -> SegmentView {
        SegmentView {
            name: self.name@,
            description: opt_text(self.description),
            duration_secs: self.duration_secs as int,
        }
    }
}

/// The countdown state. `remaining` is the time left in the current
/// segment in nanoseconds (negative once it has run over); `last_tick` is
/// the monotonic time, in nanoseconds, of the last frame that the clock saw.
#[derive(Debug)]
pub struct Timer {
    pub segments: Vec<Segment>,
    pub idx: usize,
    pub remaining: i128,
    pub paused: bool,
    pub last_tick: Option<u64>,
    pub error: Option<String>,
}

/// The countdown state as the contracts see it.
pub struct TimerView {
    pub segments: Seq<SegmentView>,
    pub idx: int,
    pub remaining: int,
    pub paused: bool,
    pub last_tick: Option<int>,
    pub error: Option<Seq<char>>,
}

pub open spec fn opt_nat(o: Option<u64>) -> Option<int> {
    match o {
        Some(v) => Some(v as int),
        None => None,
    }
}

pub open spec fn segments_view(v: Seq<Segment>) -> Seq<SegmentView> {
    v.map_values(|s: Segment| s@)
}

impl View for Timer {
    type V = TimerView;

    open spec fn view(&self) -> TimerView {
        TimerView {
            segments: segments_view(self.segments@),
            idx: self.idx as int,
            remaining: self.remaining as int,
            paused: self.paused,
            last_tick: opt_nat(self.last_tick),
            error: opt_text(self.error),
        }
    }
}

/// Seconds to nanoseconds.
pub open spec fn secs_to_nanos(secs: int) -> int {
    secs * 1_000_000_000
}

/// Whenever there are segments, the current one is one of them; after a
/// failed load there are no segments.
pub open spec fn timer_wf(t: TimerView) -> bool {
    &&& 0 <= t.idx
    &&& t.segments.len() > 0 ==> t.idx < t.segments.len()
    &&& t.error is Some ==> t.segments.len() == 0
}

/// The state before any segment list was loaded: nothing to count, paused.
pub open spec fn initial_timer() -> TimerView {
    TimerView {
        segments: Seq::empty(),
        idx: 0,
        remaining: 0,
        paused: true,
        last_tick: None,
        error: None,
    }
}

pub open spec fn clamp(x: int, lo: int, hi: int) -> int {
    if x < lo {
        lo
    } else if x > hi {
        hi
    } else {
        x
    }
}

/// Jumping to segment `target` (clamped to the list): its full duration is
/// left and the clock runs. Without segments nothing changes.
pub open spec fn goto_spec(t: TimerView, target: int) -> TimerView {
    if t.segments.len() == 0 {
        t
    } else {
        let i = clamp(target, 0, t.segments.len() - 1);
        TimerView {
            idx: i,
            remaining: secs_to_nanos(t.segments[i].duration_secs),
            paused: false,
            last_tick: None,
            ..t
        }
    }
}

/// Play/pause: the clock flips between running and paused and forgets its
/// last frame. Without segments nothing changes.
pub open spec fn toggle_pause_spec(t: TimerView) -> TimerView {
    if t.segments.len() == 0 {
        t
    } else {
        TimerView { paused: !t.paused, last_tick: None, ..t }
    }
}

/// `x` kept within the range of `i128`.
pub open spec fn saturate_i128(x: int) -> int {
    if x < i128::MIN {
        i128::MIN as int
    } else if x > i128::MAX {
        i128::MAX as int
    } else {
        x
    }
}

/// A frame at monotonic time `now`: a running clock with segments loses the
/// time since the last frame (none when the clock went backwards), and the
/// frame becomes the last one.
pub open spec fn tick_spec(t: TimerView, now: int) -> TimerView {
    let remaining = if !t.paused && t.segments.len() > 0 && t.last_tick is Some {
        let dt = if now >= t.last_tick->0 {
            now - t.last_tick->0
        } else {
            0
        };
        saturate_i128(t.remaining - dt)
    } else {
        t.remaining
    };
    TimerView { remaining, last_tick: Some(now), ..t }
}

/// A load that gave segments starts over at the first one, paused, with its
/// full duration left (nothing left without segments), and clears the error.
/// A load that failed empties the list and keeps the message; the rest stays.
pub open spec fn load_spec(t: TimerView, r: Result<Seq<SegmentView>, Seq<char>>) -> TimerView {
    match r {
        Ok(segs) => TimerView {
            segments: segs,
            idx: 0,
            remaining: if segs.len() > 0 {
                secs_to_nanos(segs[0].duration_secs)
            } else {
                0
            },
            paused: true,
            last_tick: None,
            error: None,
        },
        Err(msg) => TimerView { segments: Seq::empty(), error: Some(msg), ..t },
    }
}

pub open spec fn load_result_view(r: Result<Vec<Segment>, String>) -> Result<
    Seq<SegmentView>,
    Seq<char>,
> {
    match r {
        Ok(v) => Ok(segments_view(v@)),
        Err(e) => Err(e@),
    }
}

impl Timer {
    /// A timer with no segments, paused.
    pub fn new() -> (t: Timer)
        ensures
            t@ == initial_timer(),
    {
        let t = Timer {
            segments: Vec::new(),
            idx: 0,
            remaining: 0,
            paused: true,
            last_tick: None,
            error: None,
        };
        assert(t@.segments =~= Seq::<SegmentView>::empty());
        t
    }

    /// Jumps to segment `target`, clamped to the list, and starts the clock.
    pub fn goto(&mut self, target: i64)
        ensures
            final(self)@ == goto_spec(old(self)@, target as int),
    {
        if self.segments.len() == 0 {
            return;
        }
        let n = self.segments.len();
        let i: usize = if target < 0 {
            0
        } else if target as u64 as u128 >= n as u128 {
            n - 1
        } else {
            target as usize
        };
        self.idx = i;
        self.remaining = self.segments[i].duration_secs as i128 * NANOS_PER_SEC;
        self.paused = false;
        self.last_tick = None;
    }

    /// Play/pause.
    pub fn toggle_pause(&mut self)
        ensures
            final(self)@ == toggle_pause_spec(old(self)@),
    {
        if self.segments.len() == 0 {
            return;
        }
        self.paused = !self.paused;
        self.last_tick = None;
    }

    /// A frame at monotonic time `now`, in nanoseconds.
    pub fn tick(&mut self, now: u64)
        ensures
            final(self)@ == tick_spec(old(self)@, now as int),
    {
        if !self.paused && self.segments.len() > 0 {
            if let Some(last) = self.last_tick {
                let dt: u64 = if now >= last {
                    now - last
                } else {
                    0
                };
                let d = dt as i128;
                if self.remaining < i128::MIN + d {
                    self.remaining = i128::MIN;
                } else {
                    self.remaining = self.remaining - d;
                }
            }
        }
        self.last_tick = Some(now);
    }

    /// Takes in the result of loading a segment list.
    pub fn apply_load(&mut self, result: Result<Vec<Segment>, String>)
        ensures
            final(self)@ == load_spec(old(self)@, load_result_view(result)),
    {
        match result {
            Ok(segs) => {
                self.remaining = if segs.len() > 0 {
                    segs[0].duration_secs as i128 * NANOS_PER_SEC
                } else {
                    0
                };
                self.segments = segs;
                self.idx = 0;
                self.paused = true;
                self.last_tick = None;
                self.error = None;
            },
            Err(e) => {
                self.segments.clear();
                self.error = Some(e);
                assert(self@.segments =~= Seq::<SegmentView>::empty());
            },
        }
    }
}

} // verus!
