//! Clock text: a span of time as `mm:ss` or `h:mm:ss`, with a leading `-`
//! once the time has run out.

use vstd::prelude::*;
use crate::number::{decimal, pad2, push_char, push_decimal, push_pad2};

verus! {

pub const NANOS_PER_SEC: i128 = 1_000_000_000;

/// Whole seconds in a span of `nanos` nanoseconds, sign dropped, capped at
/// `i64::MAX`.
pub open spec fn whole_seconds(nanos: int) -> int {
    let mag = if nanos < 0 {
        -nanos
    } else {
        nanos
    };
    let secs = mag / 1_000_000_000;
    if secs > i64::MAX {
        i64::MAX as int
    } else {
        secs
    }
}

/// `h:mm:ss` when there is at least an hour, else `mm:ss`.
pub open spec fn clock_digits(total: nat) -> Seq<char> {
    let h = total / 3600;
    let m = (total % 3600) / 60;
    let s = total % 60;
    if h > 0 {
        decimal(h) + seq![':'] + pad2(m) + seq![':'] + pad2(s)
    } else {
        pad2(m) + seq![':'] + pad2(s)
    }
}

/// The clock text for a span of `nanos` nanoseconds: the whole seconds of its
/// magnitude as `clock_digits`, after a `-` when the span is negative.
pub open spec fn time_text(nanos: int) -> Seq<char> {
    let core = clock_digits(whole_seconds(nanos) as nat);
    if nanos < 0 {
        seq!['-'] + core
    } else {
        core
    }
}

/// The clock text for a span of `nanos` nanoseconds.
pub fn format_time(nanos: i128) -> (r: String)
    ensures
        r@ == time_text(nanos as int),
{
    let mag: u128 = if nanos < 0 {
        ((0 - (nanos + 1)) as u128) + 1
    } else {
        nanos as u128
    };
    let secs: u128 = mag / 1_000_000_000;
    let total: u64 = if secs > i64::MAX as u128 {
        i64::MAX as u64
    } else {
        secs as u64
    };
    assert(total as int == whole_seconds(nanos as int));
    let h = total / 3600;
    let m = (total % 3600) / 60;
    let s = total % 60;
    let mut out = String::new();
    if nanos < 0 {
        push_char(&mut out, '-');
    }
    if h > 0 {
        push_decimal(&mut out, h);
        push_char(&mut out, ':');
    }
    push_pad2(&mut out, m);
    push_char(&mut out, ':');
    push_pad2(&mut out, s);
    proof {
        assert(out@ =~= time_text(nanos as int));
    }
    out
}

} // verus!
