//! Laws that tie the library's functions to each other.

use vstd::prelude::*;
use crate::clock::{clock_digits, time_text, whole_seconds};
use crate::screenshot::{rgba_spec, Pixel};
use crate::segments::SegmentError;
use crate::duration::{
    in_i64, colon_field, colon_outcome, duration_outcome, lemma_split_colons_append,
    lemma_split_colons_colon, lemma_split_colons_single, lemma_trim_noop, split_colons,
    unit_scan, unit_seconds, unit_step, DurationError, DurationEval, UnitScan,
};
use crate::number::{all_digits, decimal, digits_value, lemma_decimal, lemma_pad2, pad2, parse_int};
use crate::text::{digit_value, is_digit, lemma_digit_char, trim, trim_end, trim_start, white_space};
use crate::overlay::{
    duration_total, hover_text_spec, is_over_spec, marker_spec, name_label_text, status_spec, RowMarker, Status,
};
use crate::timer::{
    goto_spec, initial_timer, load_spec, secs_to_nanos, tick_spec, timer_wf, toggle_pause_spec,
    SegmentView, TimerView,
};

verus! {

proof fn lemma_digits_field(d: Seq<char>, v: nat)
    requires
        d.len() >= 1,
        all_digits(d),
        digits_value(d) == v,
        v <= i64::MAX,
        !white_space(d[0]),
        !white_space(d.last()),
        d[0] != '+' && d[0] != '-',
    ensures
        parse_int(trim(d)) == Some(v as int),
{
    lemma_trim_noop(d);
}

/// A whole number of seconds, written as the clock writes it, reads back as
/// a duration of the same number of seconds: `format_time` and
/// `parse_duration` undo each other on spans of zero or more whole seconds.
#[verifier::spinoff_prover]
#[verifier::rlimit(40)]
pub proof fn law_clock_text_reads_back(secs: int)
    requires
        0 <= secs <= i64::MAX,
    ensures
        duration_outcome(time_text(secs * 1_000_000_000)) == DurationEval::Secs(secs as i64),
{
    let n = secs * 1_000_000_000;
    assert(n / 1_000_000_000 == secs && n >= 0) by (nonlinear_arith)
        requires
            n == secs * 1_000_000_000,
            secs >= 0,
    ;
    assert(whole_seconds(n) == secs);
    let total = secs as nat;
    let h = total / 3600;
    let m = (total % 3600) / 60;
    let s = total % 60;
    assert(h * 3600 + m * 60 + s == total && 0 <= m < 60 && 0 <= s < 60 && h * 3600 <= total)
        by (nonlinear_arith)
        requires
            h == total / 3600,
            m == (total % 3600) / 60,
            s == total % 60,
    ;
    let text = time_text(n);
    assert(text == clock_digits(total));
    lemma_decimal(h);
    lemma_pad2(m);
    lemma_pad2(s);
    let dm = pad2(m);
    let ds = pad2(s);
    lemma_digits_field(dm, m);
    lemma_digits_field(ds, s);
    if h > 0 {
        let dh = decimal(h);
        lemma_digits_field(dh, h);
        lemma_split_colons_single(dh);
        lemma_split_colons_colon(dh);
        assert(dh + seq![':'] =~= dh.push(':'));
        lemma_split_colons_append(dh.push(':'), dm);
        let x = dh.push(':') + dm;
        lemma_split_colons_colon(x);
        lemma_split_colons_append(x.push(':'), ds);
        assert(text =~= x.push(':') + ds);
        let parts = split_colons(text);
        assert(parts =~= seq![dh, dm, ds]);
        lemma_trim_noop(text);
        assert(text[dh.len() as int] == ':');
        assert(trim(text) == text);
        assert(colon_field(text, 0) == Some(h as int));
        assert(colon_field(text, 1) == Some(m as int));
        assert(colon_field(text, 2) == Some(s as int));
        assert forall|i: int| 0 <= i < parts.len() implies #[trigger] colon_field(text, i) is Some by {}
        assert(colon_outcome(text) == DurationEval::Secs(secs as i64));
    } else {
        lemma_split_colons_single(dm);
        lemma_split_colons_colon(dm);
        lemma_split_colons_append(dm.push(':'), ds);
        assert(text =~= dm.push(':') + ds);
        let parts = split_colons(text);
        assert(parts =~= seq![dm, ds]);
        lemma_trim_noop(text);
        assert(text[dm.len() as int] == ':');
        assert(colon_field(text, 0) == Some(m as int));
        assert(colon_field(text, 1) == Some(s as int));
        assert forall|i: int| 0 <= i < parts.len() implies #[trigger] colon_field(text, i) is Some by {}
        assert(colon_outcome(text) == DurationEval::Secs(secs as i64));
    }
}


/// Whenever there are segments the current one is one of them, and after a
/// failed load there are no segments: true at the start, and kept by every
/// operation on the countdown.
pub proof fn law_timer_wf_kept(
    t: TimerView,
    target: int,
    now: int,
    r: Result<Seq<SegmentView>, Seq<char>>,
)
    requires
        timer_wf(t),
    ensures
        timer_wf(initial_timer()),
        timer_wf(goto_spec(t, target)),
        timer_wf(toggle_pause_spec(t)),
        timer_wf(tick_spec(t, now)),
        timer_wf(load_spec(t, r)),
{
}

/// Play/pause twice gives back the state, but for the last frame, which is
/// forgotten.
pub proof fn law_toggle_pause_twice(t: TimerView)
    ensures
        toggle_pause_spec(toggle_pause_spec(t)) == (if t.segments.len() == 0 {
            t
        } else {
            TimerView { last_tick: None, ..t }
        }),
{
}

/// Jumping to the same segment twice is jumping once.
pub proof fn law_goto_idempotent(t: TimerView, target: int)
    ensures
        goto_spec(goto_spec(t, target), target) == goto_spec(t, target),
{
}

/// Jumping to a segment of the list makes it current, with its full
/// duration left and the clock running.
pub proof fn law_goto_restarts_segment(t: TimerView, i: int)
    requires
        0 <= i < t.segments.len(),
    ensures
        goto_spec(t, i).idx == i,
        goto_spec(t, i).remaining == secs_to_nanos(t.segments[i].duration_secs),
        !goto_spec(t, i).paused,
        goto_spec(t, i).segments == t.segments,
{
}

/// A running clock loses the same time whether it sees one frame or two in
/// between: elapsed time is counted once, whatever the frame rate.
pub proof fn law_ticks_compose(t: TimerView, a: int, b: int)
    requires
        !t.paused,
        t.segments.len() > 0,
        t.last_tick is Some,
        t.last_tick->0 <= a <= b,
        t.remaining - (b - t.last_tick->0) >= i128::MIN,
        t.remaining <= i128::MAX,
    ensures
        tick_spec(tick_spec(t, a), b) == tick_spec(t, b),
{
}

/// A paused clock, or one without segments, does not move.
pub proof fn law_paused_clock_stands(t: TimerView, now: int)
    requires
        t.paused || t.segments.len() == 0,
    ensures
        tick_spec(t, now).remaining == t.remaining,
{
}

/// A successful load starts over: first segment, paused, its full duration
/// left, no error; a failed load leaves no segments and keeps the message.
pub proof fn law_load_starts_over(t: TimerView, r: Result<Seq<SegmentView>, Seq<char>>)
    ensures
        r matches Ok(segs) ==> {
            let u = load_spec(t, r);
            &&& u.segments == segs
            &&& u.idx == 0
            &&& u.paused
            &&& u.error is None
            &&& segs.len() > 0 ==> u.remaining == secs_to_nanos(segs[0].duration_secs)
        },
        r matches Err(msg) ==> {
            let u = load_spec(t, r);
            &&& u.segments.len() == 0
            &&& u.error == Some(msg)
        },
{
}


/// Every character is white space.
pub open spec fn all_white(s: Seq<char>) -> bool {
    forall|i: int| 0 <= i < s.len() ==> white_space(#[trigger] s[i])
}

proof fn lemma_trim_start_white_prefix(w: Seq<char>, x: Seq<char>)
    requires
        all_white(w),
    ensures
        trim_start(w + x) == trim_start(x),
    decreases w.len(),
{
    if w.len() == 0 {
        assert(w + x =~= x);
    } else {
        assert((w + x)[0] == w[0]);
        assert((w + x).drop_first() =~= w.drop_first() + x);
        assert(all_white(w.drop_first())) by {
            assert forall|i: int| 0 <= i < w.drop_first().len() implies white_space(
                #[trigger] w.drop_first()[i],
            ) by {
                assert(w.drop_first()[i] == w[i + 1]);
            }
        }
        lemma_trim_start_white_prefix(w.drop_first(), x);
    }
}

proof fn lemma_trim_end_white_suffix(x: Seq<char>, w: Seq<char>)
    requires
        all_white(w),
    ensures
        trim_end(x + w) == trim_end(x),
    decreases w.len(),
{
    if w.len() == 0 {
        assert(x + w =~= x);
    } else {
        assert((x + w).last() == w[w.len() - 1]);
        assert((x + w).drop_last() =~= x + w.drop_last());
        assert(all_white(w.drop_last())) by {
            assert forall|i: int| 0 <= i < w.drop_last().len() implies white_space(
                #[trigger] w.drop_last()[i],
            ) by {
                assert(w.drop_last()[i] == w[i]);
            }
        }
        lemma_trim_end_white_suffix(x, w.drop_last());
    }
}

proof fn lemma_trim_start_append(x: Seq<char>, y: Seq<char>)
    ensures
        trim_start(x + y) == (if trim_start(x).len() > 0 {
            trim_start(x) + y
        } else {
            trim_start(y)
        }),
    decreases x.len(),
{
    if x.len() == 0 {
        assert(x + y =~= y);
    } else if white_space(x[0]) {
        assert((x + y)[0] == x[0]);
        assert((x + y).drop_first() =~= x.drop_first() + y);
        lemma_trim_start_append(x.drop_first(), y);
    } else {
        assert((x + y)[0] == x[0]);
    }
}

/// White space around a duration changes nothing: `parse_duration` reads
/// `w1 + s + w2` as it reads `s` whenever `w1` and `w2` are white space.
pub proof fn law_surrounding_white_space_ignored(w1: Seq<char>, s: Seq<char>, w2: Seq<char>)
    requires
        all_white(w1),
        all_white(w2),
    ensures
        trim(w1 + s + w2) == trim(s),
        duration_outcome(w1 + s + w2) == duration_outcome(s),
{
    assert(w1 + s + w2 =~= w1 + (s + w2));
    lemma_trim_start_white_prefix(w1, s + w2);
    lemma_trim_start_append(s, w2);
    if trim_start(s).len() > 0 {
        lemma_trim_end_white_suffix(trim_start(s), w2);
    } else {
        lemma_trim_start_white_prefix(w2, Seq::<char>::empty());
        assert(w2 + Seq::<char>::empty() =~= w2);
    }
}

proof fn lemma_unit_scan_never_done_with_secs(s: Seq<char>)
    ensures
        unit_scan(s) matches UnitScan::Done(o) ==> !(o is Secs),
    decreases s.len(),
{
    if s.len() > 0 {
        lemma_unit_scan_never_done_with_secs(s.drop_last());
    }
}

/// A duration in the unit form is positive whenever it reads.
pub proof fn law_unit_form_positive(raw: Seq<char>)
    requires
        !trim(raw).contains(':'),
        duration_outcome(raw) is Secs,
    ensures
        duration_outcome(raw)->Secs_0 > 0,
{
    lemma_unit_scan_never_done_with_secs(trim(raw));
}


/// The unit form read from the left, starting from `st`.
pub open spec fn scan_from(st: UnitScan, s: Seq<char>) -> UnitScan
    decreases s.len(),
{
    if s.len() == 0 {
        st
    } else {
        unit_step(scan_from(st, s.drop_last()), s.last())
    }
}

proof fn lemma_scan_from_start(s: Seq<char>)
    ensures
        unit_scan(s) == scan_from(UnitScan::Going { total: 0, acc: None }, s),
    decreases s.len(),
{
    if s.len() > 0 {
        lemma_scan_from_start(s.drop_last());
    }
}

proof fn lemma_scan_from_concat(st: UnitScan, x: Seq<char>, y: Seq<char>)
    ensures
        scan_from(st, x + y) == scan_from(scan_from(st, x), y),
    decreases y.len(),
{
    if y.len() == 0 {
        assert(x + y =~= x);
    } else {
        assert((x + y).drop_last() =~= x + y.drop_last());
        assert((x + y).last() == y.last());
        lemma_scan_from_concat(st, x, y.drop_last());
    }
}

proof fn lemma_scan_done_stays(st: UnitScan, s: Seq<char>)
    requires
        st is Done,
    ensures
        scan_from(st, s) == st,
    decreases s.len(),
{
    if s.len() > 0 {
        lemma_scan_done_stays(st, s.drop_last());
    }
}

/// Reading from a running total `k` instead of zero only adds `k` to the
/// total, as long as that stays within `i64`.
proof fn lemma_scan_shift(k: int, s: Seq<char>)
    requires
        k >= 0,
        scan_from(UnitScan::Going { total: 0, acc: None }, s) is Going,
        k + scan_from(UnitScan::Going { total: 0, acc: None }, s)->total <= i64::MAX,
    ensures
        ({
            let r = scan_from(UnitScan::Going { total: 0, acc: None }, s);
            &&& r->total >= 0
            &&& r->acc matches Some(n) ==> n >= 0
            &&& scan_from(UnitScan::Going { total: k, acc: None }, s) == UnitScan::Going {
                total: r->total + k,
                acc: r->acc,
            }
        }),
    decreases s.len(),
{
    let g0 = UnitScan::Going { total: 0, acc: None };
    if s.len() > 0 {
        let p = s.drop_last();
        let c = s.last();
        if scan_from(g0, p) is Done {
            lemma_scan_done_stays(scan_from(g0, p), seq![c]);
            assert(scan_from(scan_from(g0, p), seq![c]) == unit_step(scan_from(g0, p), c)) by {
                assert(seq![c].drop_last() =~= Seq::<char>::empty());
            }
        } else {
            let t0 = scan_from(g0, p)->total;
            let a0 = scan_from(g0, p)->acc;
            let r = scan_from(g0, s);
            lemma_scan_nonneg(p);
            if !is_digit(c) && !white_space(c) && a0 is Some && a0->0 <= i64::MAX
                && unit_seconds(c) is Some {
                let n = a0->0;
                let m = unit_seconds(c)->0;
                assert(r->total == t0 + n * m);
                lemma_scan_shift_step_bound(t0, n, m);
            }
            lemma_scan_shift(k, p);
        }
    }
}

proof fn lemma_scan_nonneg(s: Seq<char>)
    ensures
        ({
            let r = scan_from(UnitScan::Going { total: 0, acc: None }, s);
            r is Going ==> r->total >= 0 && (r->acc matches Some(n) ==> n >= 0)
        }),
    decreases s.len(),
{
    let g0 = UnitScan::Going { total: 0, acc: None };
    if s.len() > 0 {
        let p = s.drop_last();
        let c = s.last();
        lemma_scan_nonneg(p);
        if scan_from(g0, p) is Going {
            let t0 = scan_from(g0, p)->total;
            let a0 = scan_from(g0, p)->acc;
            if !is_digit(c) && !white_space(c) && a0 is Some && a0->0 <= i64::MAX
                && unit_seconds(c) is Some {
                lemma_scan_shift_step_bound(t0, a0->0, unit_seconds(c)->0);
            }
        }
    }
}

proof fn lemma_scan_shift_step_bound(t0: int, n: int, m: int)
    requires
        n >= 0,
        m == 1 || m == 60 || m == 3600,
    ensures
        t0 <= t0 + n * m,
        n * m >= 0,
{
}


/// Two trimmed unit-form durations, with white space between them.
proof fn lemma_trimmed_parts_add(a: Seq<char>, w: Seq<char>, b: Seq<char>)
    requires
        all_white(w),
        a.len() > 0,
        b.len() > 0,
        !white_space(a[0]),
        unit_seconds(a.last()) is Some,
        !white_space(b[0]),
        !white_space(b.last()),
        !a.contains(':'),
        !b.contains(':'),
        duration_outcome(a) is Secs,
        duration_outcome(b) is Secs,
        duration_outcome(a)->Secs_0 + duration_outcome(b)->Secs_0 <= i64::MAX,
    ensures
        duration_outcome(a + w + b) == DurationEval::Secs(
            (duration_outcome(a)->Secs_0 + duration_outcome(b)->Secs_0) as i64,
        ),
{
    let g0 = UnitScan::Going { total: 0, acc: None };
    let x = duration_outcome(a)->Secs_0 as int;
    let y = duration_outcome(b)->Secs_0 as int;
    let last = a.last();
    assert(!white_space(last) && !is_digit(last));
    lemma_trim_noop(a);
    lemma_trim_noop(b);
    let aw = a + w;
    let ab = aw + b;
    assert(ab[0] == a[0]);
    assert(ab.last() == b.last());
    lemma_trim_noop(ab);
    assert(!ab.contains(':')) by {
        if ab.contains(':') {
            let i = choose|i: int| 0 <= i < ab.len() && ab[i] == ':';
            if i < a.len() {
                assert(a[i] == ':');
            } else if i < aw.len() {
                assert(white_space(w[i - a.len()]));
            } else {
                assert(b[i - aw.len()] == ':');
            }
        }
    }
    lemma_unit_scan_never_done_with_secs(a);
    lemma_unit_scan_never_done_with_secs(b);
    lemma_scan_from_start(a);
    lemma_scan_from_start(b);
    lemma_scan_from_start(ab);
    assert(unit_scan(a) == unit_step(unit_scan(a.drop_last()), last));
    assert(unit_scan(a) == UnitScan::Going { total: x, acc: None });
    lemma_scan_from_concat(g0, a, w);
    lemma_scan_from_concat(g0, aw, b);
    lemma_scan_white(UnitScan::Going { total: x, acc: None }, w);
    let r = scan_from(g0, b);
    lemma_scan_nonneg(b);
    lemma_scan_shift(x, b);
}


/// White space leaves a reading of the unit form where it stands.
proof fn lemma_scan_white(st: UnitScan, w: Seq<char>)
    requires
        all_white(w),
    ensures
        scan_from(st, w) == st,
    decreases w.len(),
{
    if w.len() > 0 {
        assert(white_space(w[w.len() - 1]));
        assert(all_white(w.drop_last())) by {
            assert forall|i: int| 0 <= i < w.drop_last().len() implies white_space(
                #[trigger] w.drop_last()[i],
            ) by {
                assert(w.drop_last()[i] == w[i]);
            }
        }
        lemma_scan_white(st, w.drop_last());
    }
}

/// `s` is its leading white space followed by `trim_start(s)`.
proof fn lemma_leading_white(s: Seq<char>) -> (w: Seq<char>)
    ensures
        all_white(w),
        s == w + trim_start(s),
        trim_start(s).len() > 0 ==> !white_space(trim_start(s)[0]),
    decreases s.len(),
{
    if s.len() > 0 && white_space(s[0]) {
        let w0 = lemma_leading_white(s.drop_first());
        let w = seq![s[0]] + w0;
        assert(trim_start(s) == trim_start(s.drop_first()));
        assert(s =~= seq![s[0]] + s.drop_first());
        assert(s =~= w + trim_start(s));
        assert(all_white(w)) by {
            assert forall|i: int| 0 <= i < w.len() implies white_space(#[trigger] w[i]) by {
                if i > 0 {
                    assert(w[i] == w0[i - 1]);
                }
            }
        }
        w
    } else {
        assert(s =~= Seq::<char>::empty() + s);
        Seq::empty()
    }
}

/// `s` is `trim_end(s)` followed by its trailing white space.
proof fn lemma_trailing_white(s: Seq<char>) -> (w: Seq<char>)
    ensures
        all_white(w),
        s == trim_end(s) + w,
        trim_end(s).len() > 0 ==> !white_space(trim_end(s).last()),
    decreases s.len(),
{
    if s.len() > 0 && white_space(s.last()) {
        let w0 = lemma_trailing_white(s.drop_last());
        let w = w0.push(s.last());
        assert(trim_end(s) == trim_end(s.drop_last()));
        assert(s =~= s.drop_last().push(s.last()));
        assert(s =~= trim_end(s) + w);
        assert(all_white(w)) by {
            assert forall|i: int| 0 <= i < w.len() implies white_space(#[trigger] w[i]) by {
                if i < w0.len() {
                    assert(w[i] == w0[i]);
                }
            }
        }
        w
    } else {
        assert(s =~= s + Seq::<char>::empty());
        Seq::empty()
    }
}

/// `s` is white space, `trim(s)`, white space; `trim(s)`, when not empty,
/// neither starts nor ends with white space.
proof fn lemma_trim_split(s: Seq<char>) -> (ws: (Seq<char>, Seq<char>))
    ensures
        all_white(ws.0),
        all_white(ws.1),
        s == ws.0 + trim(s) + ws.1,
        trim(s).len() > 0 ==> !white_space(trim(s)[0]) && !white_space(trim(s).last()),
{
    let w1 = lemma_leading_white(s);
    let t = trim_start(s);
    let w2 = lemma_trailing_white(t);
    assert(s =~= w1 + trim(s) + w2);
    if trim(s).len() > 0 {
        assert(trim(s)[0] == t[0]);
    }
    (w1, w2)
}

proof fn lemma_colon_free_middle(w1: Seq<char>, m: Seq<char>, w2: Seq<char>)
    requires
        !(w1 + m + w2).contains(':'),
    ensures
        !m.contains(':'),
{
    if m.contains(':') {
        let i = choose|i: int| 0 <= i < m.len() && m[i] == ':';
        assert((w1 + m + w2)[w1.len() + i] == ':');
    }
}

proof fn lemma_all_white_concat(a: Seq<char>, b: Seq<char>)
    requires
        all_white(a),
        all_white(b),
    ensures
        all_white(a + b),
{
    assert forall|i: int| 0 <= i < (a + b).len() implies white_space(#[trigger] (a + b)[i]) by {
        if i < a.len() {
            assert((a + b)[i] == a[i]);
        } else {
            assert((a + b)[i] == b[i - a.len()]);
        }
    }
}

/// Unit-form durations add up when written one after the other: `1h30m`
/// reads as `1h` and `30m` together, and so do `" 1h "` and `" 30m "`,
/// whenever the first part, trimmed, ends with its unit and the sum stays
/// within `i64`.
pub proof fn law_unit_parts_add(x: Seq<char>, y: Seq<char>)
    requires
        !x.contains(':'),
        !y.contains(':'),
        trim(x).len() > 0,
        unit_seconds(trim(x).last()) is Some,
        duration_outcome(x) is Secs,
        duration_outcome(y) is Secs,
        duration_outcome(x)->Secs_0 + duration_outcome(y)->Secs_0 <= i64::MAX,
    ensures
        duration_outcome(x + y) == DurationEval::Secs(
            (duration_outcome(x)->Secs_0 + duration_outcome(y)->Secs_0) as i64,
        ),
{
    let (w1, w2) = lemma_trim_split(x);
    let (w3, w4) = lemma_trim_split(y);
    let a = trim(x);
    let b = trim(y);
    lemma_colon_free_middle(w1, a, w2);
    lemma_colon_free_middle(w3, b, w4);
    law_surrounding_white_space_ignored(w1, a, w2);
    law_surrounding_white_space_ignored(w3, b, w4);
    assert(b.len() > 0);
    assert(duration_outcome(a) == duration_outcome(x));
    assert(duration_outcome(b) == duration_outcome(y));
    let w = w2 + w3;
    lemma_all_white_concat(w2, w3);
    lemma_trimmed_parts_add(a, w, b);
    assert(x + y =~= w1 + (a + w + b) + w4);
    law_surrounding_white_space_ignored(w1, a + w + b, w4);
}


/// An integer written in decimal, with a `-` when negative, as `{}` writes it.
pub open spec fn int_text(n: int) -> Seq<char> {
    if n < 0 {
        seq!['-'] + decimal((-n) as nat)
    } else {
        decimal(n as nat)
    }
}

proof fn lemma_int_text(n: int)
    requires
        in_i64(n),
    ensures
        int_text(n).len() > 0,
        !white_space(int_text(n)[0]),
        !white_space(int_text(n).last()),
        !int_text(n).contains(':'),
        parse_int(trim(int_text(n))) == Some(n),
{
    let t = int_text(n);
    if n < 0 {
        let d = decimal((-n) as nat);
        lemma_decimal((-n) as nat);
        assert(t[0] == '-');
        assert(t.drop_first() =~= d);
        assert(t.last() == d.last());
        assert(!t.contains(':')) by {
            if t.contains(':') {
                let i = choose|i: int| 0 <= i < t.len() && t[i] == ':';
                assert(i > 0);
                assert(d[i - 1] == ':');
            }
        }
        lemma_trim_noop(t);
    } else {
        lemma_decimal(n as nat);
        lemma_trim_noop(t);
    }
}

/// `m:s` reads as `m * 60 + s` seconds, for every pair of integers whose
/// sum stays within `i64` (no bound of 60 on either field).
#[verifier::spinoff_prover]
#[verifier::rlimit(40)]
pub proof fn law_colon_minutes_seconds(m: int, s: int)
    requires
        in_i64(s),
        in_i64(m * 60),
        in_i64(m * 60 + s),
    ensures
        duration_outcome(int_text(m) + seq![':'] + int_text(s)) == DurationEval::Secs(
            (m * 60 + s) as i64,
        ),
{
    let fm = int_text(m);
    let fs = int_text(s);
    lemma_int_text(m);
    lemma_int_text(s);
    let text = fm + seq![':'] + fs;
    lemma_split_colons_single(fm);
    lemma_split_colons_colon(fm);
    lemma_split_colons_append(fm.push(':'), fs);
    assert(text =~= fm.push(':') + fs);
    let parts = split_colons(text);
    assert(parts =~= seq![fm, fs]);
    assert(text[0] == fm[0]);
    assert(text.last() == fs.last());
    lemma_trim_noop(text);
    assert(text[fm.len() as int] == ':');
    assert(colon_field(text, 0) == Some(m));
    assert(colon_field(text, 1) == Some(s));
    assert forall|i: int| 0 <= i < parts.len() implies #[trigger] colon_field(text, i) is Some by {}
    assert(colon_outcome(text) == DurationEval::Secs((m * 60 + s) as i64));
}

/// `h:m:s` reads as `h * 3600 + m * 60 + s` seconds, for every triple of
/// integers whose partial sums stay within `i64`.
#[verifier::spinoff_prover]
#[verifier::rlimit(40)]
pub proof fn law_colon_hours_minutes_seconds(h: int, m: int, s: int)
    requires
        in_i64(s),
        in_i64(h * 3600),
        in_i64(m * 60),
        in_i64(h * 3600 + m * 60),
        in_i64(h * 3600 + m * 60 + s),
    ensures
        duration_outcome(int_text(h) + seq![':'] + int_text(m) + seq![':'] + int_text(s))
            == DurationEval::Secs((h * 3600 + m * 60 + s) as i64),
{
    let fh = int_text(h);
    let fm = int_text(m);
    let fs = int_text(s);
    lemma_int_text(h);
    lemma_int_text(m);
    lemma_int_text(s);
    let text = fh + seq![':'] + fm + seq![':'] + fs;
    lemma_split_colons_single(fh);
    lemma_split_colons_colon(fh);
    lemma_split_colons_append(fh.push(':'), fm);
    let x = fh.push(':') + fm;
    lemma_split_colons_colon(x);
    lemma_split_colons_append(x.push(':'), fs);
    assert(text =~= x.push(':') + fs);
    let parts = split_colons(text);
    assert(parts =~= seq![fh, fm, fs]);
    assert(text[0] == fh[0]);
    assert(text.last() == fs.last());
    lemma_trim_noop(text);
    assert(text[fh.len() as int] == ':');
    assert(colon_field(text, 0) == Some(h));
    assert(colon_field(text, 1) == Some(m));
    assert(colon_field(text, 2) == Some(s));
    assert forall|i: int| 0 <= i < parts.len() implies #[trigger] colon_field(text, i) is Some by {}
    assert(colon_outcome(text) == DurationEval::Secs((h * 3600 + m * 60 + s) as i64));
}


/// A jump lands on the target clamped to the list: below zero on the first
/// segment, past the end on the last, else on the target itself; that
/// segment's full duration is left and the clock runs.
pub proof fn law_goto_clamps(t: TimerView, target: int)
    requires
        t.segments.len() > 0,
    ensures
        target < 0 ==> goto_spec(t, target).idx == 0,
        target >= t.segments.len() ==> goto_spec(t, target).idx == t.segments.len() - 1,
        0 <= target < t.segments.len() ==> goto_spec(t, target).idx == target,
        goto_spec(t, target).remaining == secs_to_nanos(
            t.segments[goto_spec(t, target).idx].duration_secs,
        ),
        !goto_spec(t, target).paused,
        goto_spec(t, target).segments == t.segments,
        goto_spec(t, target).error == t.error,
{
}

/// Play/pause always flips the clock when there are segments, whatever is
/// left of the segment (also when it has run over); nothing else changes but
/// the last frame, which is forgotten.
pub proof fn law_toggle_pause_flips(t: TimerView)
    requires
        t.segments.len() > 0,
    ensures
        toggle_pause_spec(t).paused == !t.paused,
        toggle_pause_spec(t).remaining == t.remaining,
        toggle_pause_spec(t).idx == t.idx,
        toggle_pause_spec(t).segments == t.segments,
        toggle_pause_spec(t).last_tick is None,
{
}

/// A segment has run over exactly when there are segments and no time is
/// left, paused or not; the status dot then shows the overrun, before
/// paused or running.
pub proof fn law_over_ignores_pause(t: TimerView, p: bool)
    ensures
        is_over_spec(t) == (t.segments.len() > 0 && t.remaining <= 0),
        is_over_spec(TimerView { paused: p, ..t }) == is_over_spec(t),
        is_over_spec(t) ==> status_spec(t) == Status::Over,
        !is_over_spec(t) && t.paused ==> status_spec(t) == Status::Paused,
        !is_over_spec(t) && !t.paused ==> status_spec(t) == Status::Running,
{
}

/// The hover text does not depend on the time left: it shows the current
/// segment's full duration, so frames and the clock do not change it.
pub proof fn law_hover_ignores_remaining(
    t: TimerView,
    r: int,
    now: int,
    config: Option<Seq<char>>,
)
    ensures
        hover_text_spec(TimerView { remaining: r, ..t }, config) == hover_text_spec(t, config),
        hover_text_spec(tick_spec(t, now), config) == hover_text_spec(t, config),
        t.error is None && 0 <= t.idx < t.segments.len() && t.segments[t.idx].description is None
            ==> hover_text_spec(t, config) == "Duration: "@ + time_text(
            secs_to_nanos(t.segments[t.idx].duration_secs),
        ) + "\nRight-click for menu\nConfig: "@ + (match config {
            Some(c) => c,
            None => "<none>"@,
        }),
{
}

/// A running clock loses exactly the time since the last frame (when that
/// stays within `i128`); the first frame after a reset loses nothing.
pub proof fn law_tick_counts_elapsed(t: TimerView, now: int)
    ensures
        !t.paused && t.segments.len() > 0 && t.last_tick is Some && t.last_tick->0 <= now
            && t.remaining - (now - t.last_tick->0) >= i128::MIN && t.remaining <= i128::MAX
            ==> tick_spec(t, now).remaining == t.remaining - (now - t.last_tick->0),
        t.last_tick is None ==> tick_spec(t, now).remaining == t.remaining,
        tick_spec(t, now).last_tick == Some(now),
        tick_spec(t, now).idx == t.idx,
        tick_spec(t, now).paused == t.paused,
{
}

/// The label counts segments from one: `position/count name`, unless a load
/// failed or there is no current segment.
pub proof fn law_name_label(t: TimerView)
    ensures
        t.error is Some ==> name_label_text(t) == "load error"@,
        t.error is None && 0 <= t.idx < t.segments.len() ==> name_label_text(t) == decimal(
            (t.idx + 1) as nat,
        ) + seq!['/'] + decimal(t.segments.len()) + seq![' '] + t.segments[t.idx].name,
        t.error is None && !(0 <= t.idx < t.segments.len()) ==> name_label_text(t)
            == "No segments"@,
{
}

/// In the agenda the current segment is marked current, those before it
/// done and those after it upcoming.
pub proof fn law_agenda_markers(i: int, current: int)
    ensures
        (marker_spec(i, current) == RowMarker::Current) == (i == current),
        (marker_spec(i, current) == RowMarker::Done) == (i < current),
        (marker_spec(i, current) == RowMarker::Upcoming) == (i > current),
{
}


/// A run of digits read as the unit form: the number pending, no total yet.
proof fn lemma_unit_scan_decimal(n: nat)
    ensures
        unit_scan(decimal(n)) == (UnitScan::Going { total: 0, acc: Some(n as int) }),
    decreases n,
{
    lemma_decimal(n);
    let g0 = UnitScan::Going { total: 0, acc: None };
    assert(unit_scan(Seq::<char>::empty()) == g0);
    if n < 10 {
        crate::text::lemma_digit_char(n as int);
        assert(decimal(n).drop_last() =~= Seq::<char>::empty());
        assert(decimal(n).last() == crate::text::digit_char(n as int));
        assert(unit_scan(decimal(n)) == unit_step(g0, decimal(n).last()));
    } else {
        lemma_unit_scan_decimal(n / 10);
        crate::text::lemma_digit_char((n % 10) as int);
        assert(decimal(n).drop_last() =~= decimal(n / 10));
        assert(decimal(n).last() == crate::text::digit_char((n % 10) as int));
        assert(n == (n / 10) * 10 + n % 10);
        assert(unit_scan(decimal(n)) == unit_step(unit_scan(decimal(n / 10)), decimal(n).last()));
    }
}

proof fn lemma_number_then(n: nat, c: char)
    requires
        n <= i64::MAX,
        !is_digit(c),
        !white_space(c),
        c != ':',
    ensures
        trim(decimal(n).push(c)) == decimal(n).push(c),
        !decimal(n).push(c).contains(':'),
        unit_scan(decimal(n).push(c)) == unit_step(
            (UnitScan::Going { total: 0, acc: Some(n as int) }),
            c,
        ),
{
    lemma_decimal(n);
    lemma_unit_scan_decimal(n);
    let t = decimal(n).push(c);
    assert(t[0] == decimal(n)[0]);
    assert(t.drop_last() =~= decimal(n));
    lemma_trim_noop(t);
    assert(!t.contains(':')) by {
        if t.contains(':') {
            let i = choose|i: int| 0 <= i < t.len() && t[i] == ':';
            if i < decimal(n).len() {
                assert(decimal(n)[i] == ':');
            }
        }
    }
}

/// A number followed by a unit letter reads as that many hours (`h`, `H`),
/// minutes (`m`, `M`) or seconds (`s`, `S`); a number alone reads as
/// seconds.
pub proof fn law_unit_number(n: nat)
    ensures
        1 <= n && n * 3600 <= i64::MAX ==> duration_outcome(decimal(n).push('h'))
            == DurationEval::Secs((n * 3600) as i64) && duration_outcome(decimal(n).push('H'))
            == DurationEval::Secs((n * 3600) as i64),
        1 <= n && n * 60 <= i64::MAX ==> duration_outcome(decimal(n).push('m'))
            == DurationEval::Secs((n * 60) as i64) && duration_outcome(decimal(n).push('M'))
            == DurationEval::Secs((n * 60) as i64),
        1 <= n <= i64::MAX ==> duration_outcome(decimal(n).push('s')) == DurationEval::Secs(
            n as i64,
        ) && duration_outcome(decimal(n).push('S')) == DurationEval::Secs(n as i64)
            && duration_outcome(decimal(n)) == DurationEval::Secs(n as i64),
{
    lemma_decimal(n);
    lemma_unit_scan_decimal(n);
    lemma_trim_noop(decimal(n));
    if n <= i64::MAX {
        lemma_number_then(n, 'h');
        lemma_number_then(n, 'H');
        lemma_number_then(n, 'm');
        lemma_number_then(n, 'M');
        lemma_number_then(n, 's');
        lemma_number_then(n, 'S');
    }
}

proof fn lemma_zero_then(c: char)
    requires
        unit_seconds(c) is Some,
    ensures
        duration_outcome(decimal(0).push(c)) == DurationEval::Failed(DurationError::NotPositive),
{
    lemma_number_then(0, c);
    let st = unit_step(UnitScan::Going { total: 0, acc: Some(0) }, c);
    assert(0 * unit_seconds(c)->0 == 0);
    assert(st == (UnitScan::Going { total: 0, acc: None }));
}

/// Zero of anything is refused as not positive.
pub proof fn law_zero_is_not_positive()
    ensures
        duration_outcome(decimal(0)) == DurationEval::Failed(DurationError::NotPositive),
        duration_outcome(decimal(0).push('h')) == DurationEval::Failed(DurationError::NotPositive),
        duration_outcome(decimal(0).push('m')) == DurationEval::Failed(DurationError::NotPositive),
        duration_outcome(decimal(0).push('s')) == DurationEval::Failed(DurationError::NotPositive),
{
    lemma_decimal(0);
    lemma_unit_scan_decimal(0);
    lemma_trim_noop(decimal(0));
    lemma_zero_then('h');
    lemma_zero_then('m');
    lemma_zero_then('s');
}

/// After a number, a character that is neither a digit, white space, `:`
/// nor a unit letter is refused as an unknown unit, and that character is
/// reported.
pub proof fn law_unknown_unit(n: nat, c: char)
    requires
        n <= i64::MAX,
        !is_digit(c),
        !white_space(c),
        c != ':',
        c != 's' && c != 'S' && c != 'm' && c != 'M' && c != 'h' && c != 'H',
    ensures
        duration_outcome(decimal(n).push(c)) == DurationEval::Failed(
            DurationError::UnknownUnit(c),
        ),
{
    lemma_number_then(n, c);
}

/// A unit letter, or any other character that is not a digit, white space
/// or `:`, with no number before it is refused as invalid.
pub proof fn law_unit_without_number(c: char)
    requires
        !is_digit(c),
        !white_space(c),
        c != ':',
    ensures
        duration_outcome(seq![c]) == DurationEval::Failed(DurationError::Invalid),
{
    lemma_trim_noop(seq![c]);
    assert(seq![c].drop_last() =~= Seq::<char>::empty());
    assert(unit_scan(Seq::<char>::empty()) == (UnitScan::Going { total: 0, acc: None }));
    assert(unit_scan(seq![c]) == unit_step(unit_scan(seq![c].drop_last()), c));
    assert(!seq![c].contains(':')) by {
        if seq![c].contains(':') {
            let i = choose|i: int| 0 <= i < seq![c].len() && seq![c][i] == ':';
            assert(seq![c][i] == c);
        }
    }
}

/// Nothing but white space is refused as empty.
pub proof fn law_white_space_only_is_empty(s: Seq<char>)
    requires
        all_white(s),
    ensures
        duration_outcome(s) == DurationEval::Failed(DurationError::Empty),
{
    lemma_trim_start_white_prefix(s, Seq::<char>::empty());
    assert(s + Seq::<char>::empty() =~= s);
}

/// A colon form with four fields is refused for its field count.
#[verifier::spinoff_prover]
#[verifier::rlimit(40)]
pub proof fn law_colon_four_fields(a: int, b: int, c: int, d: int)
    requires
        in_i64(a),
        in_i64(b),
        in_i64(c),
        in_i64(d),
    ensures
        duration_outcome(int_text(a) + seq![':'] + int_text(b) + seq![':'] + int_text(c)
            + seq![':'] + int_text(d)) == DurationEval::Failed(DurationError::InvalidColon),
{
    let fa = int_text(a);
    let fb = int_text(b);
    let fc = int_text(c);
    let fd = int_text(d);
    lemma_int_text(a);
    lemma_int_text(b);
    lemma_int_text(c);
    lemma_int_text(d);
    let text = fa + seq![':'] + fb + seq![':'] + fc + seq![':'] + fd;
    lemma_split_colons_single(fa);
    lemma_split_colons_colon(fa);
    lemma_split_colons_append(fa.push(':'), fb);
    let x = fa.push(':') + fb;
    lemma_split_colons_colon(x);
    lemma_split_colons_append(x.push(':'), fc);
    let y = x.push(':') + fc;
    lemma_split_colons_colon(y);
    lemma_split_colons_append(y.push(':'), fd);
    assert(text =~= y.push(':') + fd);
    let parts = split_colons(text);
    assert(parts =~= seq![fa, fb, fc, fd]);
    assert(text[0] == fa[0]);
    assert(text.last() == fd.last());
    lemma_trim_noop(text);
    assert(text[fa.len() as int] == ':');
    assert(colon_field(text, 0) == Some(a));
    assert(colon_field(text, 1) == Some(b));
    assert(colon_field(text, 2) == Some(c));
    assert(colon_field(text, 3) == Some(d));
    assert forall|i: int| 0 <= i < parts.len() implies #[trigger] colon_field(text, i) is Some by {}
}

/// A colon form with an empty field is refused as invalid.
#[verifier::spinoff_prover]
#[verifier::rlimit(40)]
pub proof fn law_colon_empty_field(a: int)
    requires
        in_i64(a),
    ensures
        duration_outcome(int_text(a) + seq![':']) == DurationEval::Failed(DurationError::Invalid),
{
    let fa = int_text(a);
    lemma_int_text(a);
    let t2 = fa + seq![':'];
    assert(t2 =~= fa.push(':'));
    lemma_split_colons_single(fa);
    lemma_split_colons_colon(fa);
    assert(split_colons(t2) =~= seq![fa, Seq::<char>::empty()]);
    assert(t2[0] == fa[0]);
    assert(t2.last() == ':');
    lemma_trim_noop(t2);
    assert(t2[fa.len() as int] == ':');
    assert(trim(Seq::<char>::empty()) =~= Seq::<char>::empty());
    assert(colon_field(t2, 1) is None);
}


/// A negative span is written as its magnitude after a `-`.
pub proof fn law_clock_negative(n: int)
    requires
        n > 0,
    ensures
        time_text(-n) == seq!['-'] + time_text(n),
{
}

/// Fractions of a second are cut off, not rounded.
pub proof fn law_clock_cuts_fractions(n: int)
    requires
        n >= 0,
    ensures
        time_text(n) == time_text((n / 1_000_000_000) * 1_000_000_000),
{
    let q = n / 1_000_000_000;
    assert(((q * 1_000_000_000) / 1_000_000_000) == q && q * 1_000_000_000 >= 0)
        by (nonlinear_arith)
        requires
            q == n / 1_000_000_000,
            n >= 0,
    ;
}

proof fn lemma_pad2_small(m: nat)
    requires
        m < 100,
    ensures
        pad2(m).len() == 2,
{
    if m >= 10 {
        assert(m / 10 < 10);
        assert(decimal(m).len() == decimal(m / 10).len() + 1);
    }
}

/// Under an hour the clock shows five characters, `mm:ss`; from an hour on
/// it shows the hours, then `:mm:ss` with two digits each.
pub proof fn law_clock_layout(secs: int)
    requires
        0 <= secs <= i64::MAX,
    ensures
        secs < 3600 ==> time_text(secs * 1_000_000_000).len() == 5 && time_text(
            secs * 1_000_000_000,
        )[2] == ':',
        secs >= 3600 ==> ({
            let t = time_text(secs * 1_000_000_000);
            &&& t.len() == decimal((secs / 3600) as nat).len() + 6
            &&& t[t.len() - 3] == ':'
            &&& t[t.len() - 6] == ':'
        }),
{
    let n = secs * 1_000_000_000;
    assert(n / 1_000_000_000 == secs && n >= 0) by (nonlinear_arith)
        requires
            n == secs * 1_000_000_000,
            secs >= 0,
    ;
    assert(whole_seconds(n) == secs);
    let total = secs as nat;
    let m = (total % 3600) / 60;
    let sc = total % 60;
    assert(m < 60 && sc < 60);
    lemma_pad2_small(m);
    lemma_pad2_small(sc);
    if secs >= 3600 {
        let d = decimal(total / 3600);
        let t = time_text(n);
        assert(t == d + seq![':'] + pad2(m) + seq![':'] + pad2(sc));
        assert(t[t.len() - 3] == ':');
        assert(t[t.len() - 6] == ':');
    } else {
        assert(total / 3600 == 0);
    }
}

/// The messages shown for a refused duration, about the text `raw`.
pub proof fn law_duration_messages(raw: Seq<char>, c: char)
    ensures
        DurationError::Empty.message_text(raw) == "empty duration"@,
        DurationError::Invalid.message_text(raw) == "invalid duration '"@ + raw + "'"@,
        DurationError::InvalidColon.message_text(raw) == "invalid colon duration '"@ + raw
            + "'"@,
        DurationError::UnknownUnit(c).message_text(raw) == "unknown unit '"@ + seq![c]
            + "' in '"@ + raw + "'"@,
        DurationError::NotPositive.message_text(raw) == "duration must be positive: '"@ + raw
            + "'"@,
{
}

/// A refused segment list names the segment and says why.
pub proof fn law_segment_message(e: SegmentError)
    ensures
        e.message_text() == "segment '"@ + e.name@ + "': "@ + e.error.message_text(
            e.duration@,
        ),
{
}

/// The agenda's running total starts at zero and each segment adds its
/// duration.
pub proof fn law_duration_total_adds(segs: Seq<SegmentView>, seg: SegmentView)
    ensures
        duration_total(Seq::<SegmentView>::empty()) == 0,
        duration_total(segs.push(seg)) == duration_total(segs) + seg.duration_secs,
{
    assert(segs.push(seg).drop_last() =~= segs);
}

/// The screenshot bytes are four per pixel: red, green, blue, alpha, in
/// pixel order.
pub proof fn law_rgba_layout(p: Seq<Pixel>, i: int)
    requires
        0 <= i < p.len(),
    ensures
        rgba_spec(p).len() == 4 * p.len(),
        rgba_spec(p)[4 * i] == p[i].r,
        rgba_spec(p)[4 * i + 1] == p[i].g,
        rgba_spec(p)[4 * i + 2] == p[i].b,
        rgba_spec(p)[4 * i + 3] == p[i].a,
    decreases p.len(),
{
    crate::screenshot::lemma_rgba_len(p);
    crate::screenshot::lemma_rgba_len(p.drop_last());
    if i < p.len() - 1 {
        law_rgba_layout(p.drop_last(), i);
        assert(p.drop_last()[i] == p[i]);
    }
}

/// Before anything is loaded there are no segments, nothing to count, no
/// error, and the clock is paused.
pub proof fn law_initial_timer()
    ensures
        initial_timer().segments.len() == 0,
        initial_timer().idx == 0,
        initial_timer().remaining == 0,
        initial_timer().paused,
        initial_timer().last_tick is None,
        initial_timer().error is None,
{
}

/// Without segments, jumping does nothing.
pub proof fn law_goto_without_segments(t: TimerView, target: int)
    requires
        t.segments.len() == 0,
    ensures
        goto_spec(t, target) == t,
{
}

/// A failed load keeps where the clock stood: index, time left and pause.
pub proof fn law_failed_load_keeps_clock(t: TimerView, msg: Seq<char>)
    ensures
        load_spec(t, Err(msg)).idx == t.idx,
        load_spec(t, Err(msg)).remaining == t.remaining,
        load_spec(t, Err(msg)).paused == t.paused,
        load_spec(t, Err(msg)).last_tick == t.last_tick,
{
}

/// With a description, the hover text starts with it on a line of its own,
/// followed by the duration line of the current segment.
pub proof fn law_hover_with_description(t: TimerView, config: Option<Seq<char>>)
    requires
        t.error is None,
        0 <= t.idx < t.segments.len(),
        t.segments[t.idx].description is Some,
    ensures
        hover_text_spec(t, config) == t.segments[t.idx].description->0 + seq!['\n']
            + "Duration: "@ + time_text(secs_to_nanos(t.segments[t.idx].duration_secs))
            + "\nRight-click for menu\nConfig: "@ + (match config {
            Some(c) => c,
            None => "<none>"@,
        }),
{
}


/// After a failed load the hover text is its message; with no current
/// segment it is the hint and the configuration path.
pub proof fn law_hover_other_cases(t: TimerView, config: Option<Seq<char>>)
    ensures
        t.error matches Some(e) ==> hover_text_spec(t, config) == e,
        t.error is None && !(0 <= t.idx < t.segments.len()) ==> hover_text_spec(t, config)
            == "Right-click for menu\nConfig: "@ + (match config {
            Some(c) => c,
            None => "<none>"@,
        }),
{
}

} // verus!
