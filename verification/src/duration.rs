//! Segment durations as `segments.yaml` writes them: `25m`, `1h30m`, `90s`,
//! `mm:ss` or `hh:mm:ss`.

use vstd::prelude::*;
use crate::number::{parse_i64, parse_int, push_char};
use crate::text::{
    chars_of, digit_of, digit_value, is_digit, is_white_space, sub_vec, trim, trim_bounds,
    white_space,
};

verus! {

/// Why a duration was refused.
#[derive(Clone, Copy, Debug, PartialEq, Eq, Structural)]
pub enum DurationError {
    /// Nothing but white space.
    Empty,
    /// A number that does not read, or a unit with no number before it.
    Invalid,
    /// A colon form with other than two or three fields.
    InvalidColon,
    /// A character other than a digit, white space, `s`, `m` or `h` right
    /// after a number.
    UnknownUnit(char),
    /// A unit form that adds up to zero seconds.
    NotPositive,
}

/// What reading a duration comes to: seconds, a refusal, or an intermediate
/// value outside the range of `i64` (where the arithmetic would overflow).
#[derive(Clone, Copy, Debug, PartialEq, Eq, Structural)]
pub enum DurationEval {
    Secs(i64),
    Failed(DurationError),
    Overflow,
}

/// Seconds per unit letter, in either case.
pub open spec fn unit_seconds(c: char) -> Option<int> {
    if c == 's' || c == 'S' {
        Some(1)
    } else if c == 'm' || c == 'M' {
        Some(60)
    } else if c == 'h' || c == 'H' {
        Some(3600)
    } else {
        None
    }
}

pub open spec fn in_i64(x: int) -> bool {
    i64::MIN <= x <= i64::MAX
}

/// Where a left-to-right reading of the unit form stands: a running total and
/// the number read since the last unit, or a final outcome.
pub enum UnitScan {
    Going { total: int, acc: Option<int> },
    Done(DurationEval),
}

/// One character of the unit form: digits extend the pending number, white
/// space is skipped, a unit letter adds the pending number times its
/// seconds to the total.
pub open spec fn unit_step(st: UnitScan, c: char) -> UnitScan {
    match st {
        UnitScan::Done(_) => st,
        UnitScan::Going { total, acc } => {
            if is_digit(c) {
                let prev = match acc {
                    Some(n) => n,
                    None => 0,
                };
                UnitScan::Going { total, acc: Some(prev * 10 + digit_value(c)) }
            } else if white_space(c) {
                st
            } else {
                match acc {
                    None => UnitScan::Done(DurationEval::Failed(DurationError::Invalid)),
                    Some(n) => {
                        if n > i64::MAX {
                            UnitScan::Done(DurationEval::Failed(DurationError::Invalid))
                        } else {
                            match unit_seconds(c) {
                                None => UnitScan::Done(
                                    DurationEval::Failed(DurationError::UnknownUnit(c)),
                                ),
                                Some(m) => {
                                    if total + n * m > i64::MAX {
                                        UnitScan::Done(DurationEval::Overflow)
                                    } else {
                                        UnitScan::Going { total: total + n * m, acc: None }
                                    }
                                },
                            }
                        }
                    },
                }
            }
        },
    }
}

/// The unit form read from the left.
pub open spec fn unit_scan(s: Seq<char>) -> UnitScan
    decreases s.len(),
{
    if s.len() == 0 {
        UnitScan::Going { total: 0, acc: None }
    } else {
        unit_step(unit_scan(s.drop_last()), s.last())
    }
}

/// The end of the unit form: a trailing number counts as seconds, and the
/// total must be positive.
pub open spec fn unit_finish(st: UnitScan) -> DurationEval {
    match st {
        UnitScan::Done(o) => o,
        UnitScan::Going { total, acc } => {
            let t = match acc {
                Some(n) => total + n,
                None => total,
            };
            if acc matches Some(n) && n > i64::MAX {
                DurationEval::Failed(DurationError::Invalid)
            } else if t > i64::MAX {
                DurationEval::Overflow
            } else if t <= 0 {
                DurationEval::Failed(DurationError::NotPositive)
            } else {
                DurationEval::Secs(t as i64)
            }
        },
    }
}

/// `s` cut at each `:`, as `str::split(':')` cuts it.
pub open spec fn split_colons(s: Seq<char>) -> Seq<Seq<char>>
    decreases s.len(),
{
    if s.len() == 0 {
        seq![Seq::<char>::empty()]
    } else {
        let p = split_colons(s.drop_last());
        if s.last() == ':' {
            p.push(Seq::<char>::empty())
        } else {
            p.update(p.len() - 1, p.last().push(s.last()))
        }
    }
}

/// The `i`-th field of a colon form, read as an integer.
pub open spec fn colon_field(s: Seq<char>, i: int) -> Option<int> {
    parse_int(trim(split_colons(s)[i]))
}

/// The colon form: every field an integer, then `m:s` or `h:m:s`.
pub open spec fn colon_outcome(s: Seq<char>) -> DurationEval {
    let n = split_colons(s).len();
    if exists|i: int| 0 <= i < n && #[trigger] colon_field(s, i) is None {
        DurationEval::Failed(DurationError::Invalid)
    } else if n == 2 {
        let m = colon_field(s, 0).unwrap();
        let sec = colon_field(s, 1).unwrap();
        if in_i64(m * 60) && in_i64(m * 60 + sec) {
            DurationEval::Secs((m * 60 + sec) as i64)
        } else {
            DurationEval::Overflow
        }
    } else if n == 3 {
        let h = colon_field(s, 0).unwrap();
        let m = colon_field(s, 1).unwrap();
        let sec = colon_field(s, 2).unwrap();
        if in_i64(h * 3600) && in_i64(m * 60) && in_i64(h * 3600 + m * 60) && in_i64(
            h * 3600 + m * 60 + sec,
        ) {
            DurationEval::Secs((h * 3600 + m * 60 + sec) as i64)
        } else {
            DurationEval::Overflow
        }
    } else {
        DurationEval::Failed(DurationError::InvalidColon)
    }
}

/// What reading `raw` as a duration comes to.
pub open spec fn duration_outcome(raw: Seq<char>) -> DurationEval {
    let s = trim(raw);
    if s.len() == 0 {
        DurationEval::Failed(DurationError::Empty)
    } else if s.contains(':') {
        colon_outcome(s)
    } else {
        unit_finish(unit_scan(s))
    }
}


pub proof fn lemma_unit_scan_take_step(s: Seq<char>, i: int)
    requires
        0 <= i < s.len(),
    ensures
        unit_scan(s.take(i + 1)) == unit_step(unit_scan(s.take(i)), s[i]),
{
    assert(s.take(i + 1).drop_last() =~= s.take(i));
}

/// Once the unit form has an outcome, the rest of the text does not change it.
pub proof fn lemma_unit_scan_done(s: Seq<char>, k: int)
    requires
        0 <= k <= s.len(),
        unit_scan(s.take(k)) is Done,
    ensures
        unit_scan(s) == unit_scan(s.take(k)),
    decreases s.len(),
{
    if s.len() > k {
        assert(s.drop_last().take(k) =~= s.take(k));
        lemma_unit_scan_done(s.drop_last(), k);
    } else {
        assert(s.take(k) =~= s);
    }
}

/// The unit form of `t`, read as `unit_finish(unit_scan(..))` says.
fn eval_units(t: &Vec<char>) -> (r: DurationEval)
    ensures
        r == unit_finish(unit_scan(t@)),
{
    let mut total: i64 = 0;
    let mut acc: i64 = 0;
    let mut acc_some = false;
    let mut big = false;
    let mut i: usize = 0;
    while i < t.len()
        invariant
            i <= t.len(),
            unit_scan(t@.take(i as int)) is Going,
            unit_scan(t@.take(i as int))->total == total as int,
            acc_some == (unit_scan(t@.take(i as int))->acc is Some),
            acc_some && !big ==> unit_scan(t@.take(i as int))->acc == Some(acc as int),
            big ==> acc_some && unit_scan(t@.take(i as int))->acc->0 > i64::MAX,
            acc_some ==> unit_scan(t@.take(i as int))->acc->0 >= 0,
            0 <= total,
            0 <= acc,
        decreases t.len() - i,
    {
        let c = t[i];
        proof {
            lemma_unit_scan_take_step(t@, i as int);
        }
        match digit_of(c) {
            Some(d) => {
                if !big {
                    let prev: i128 = if acc_some {
                        acc as i128
                    } else {
                        0
                    };
                    let n: i128 = prev * 10 + d as i128;
                    if n > i64::MAX as i128 {
                        big = true;
                    } else {
                        acc = n as i64;
                    }
                }
                acc_some = true;
            },
            None => {
                if !is_white_space(c) {
                    if !acc_some || big {
                        proof {
                            lemma_unit_scan_done(t@, i + 1);
                        }
                        return DurationEval::Failed(DurationError::Invalid);
                    }
                    let a = acc as i128;
                    let prod: i128 = if c == 's' || c == 'S' {
                        a
                    } else if c == 'm' || c == 'M' {
                        a * 60
                    } else if c == 'h' || c == 'H' {
                        a * 3600
                    } else {
                        proof {
                            lemma_unit_scan_done(t@, i + 1);
                        }
                        return DurationEval::Failed(DurationError::UnknownUnit(c));
                    };
                    let sum: i128 = total as i128 + prod;
                    if sum > i64::MAX as i128 {
                        proof {
                            lemma_unit_scan_done(t@, i + 1);
                        }
                        return DurationEval::Overflow;
                    }
                    total = sum as i64;
                    acc = 0;
                    acc_some = false;
                }
            },
        }
        i = i + 1;
    }
    assert(t@.take(i as int) =~= t@);
    if acc_some && big {
        return DurationEval::Failed(DurationError::Invalid);
    }
    let last: i128 = if acc_some {
        acc as i128
    } else {
        0
    };
    let sum: i128 = total as i128 + last;
    if sum > i64::MAX as i128 {
        DurationEval::Overflow
    } else if sum <= 0 {
        DurationEval::Failed(DurationError::NotPositive)
    } else {
        DurationEval::Secs(sum as i64)
    }
}


pub open spec fn opt_int(o: Option<i64>) -> Option<int> {
    match o {
        Some(v) => Some(v as int),
        None => None,
    }
}

pub proof fn lemma_split_colons_len(s: Seq<char>)
    ensures
        split_colons(s).len() >= 1,
    decreases s.len(),
{
    if s.len() > 0 {
        lemma_split_colons_len(s.drop_last());
    }
}

/// The colon form of `t`, read as `colon_outcome` says.
fn eval_colon(t: &Vec<char>) -> (r: DurationEval)
    ensures
        r == colon_outcome(t@),
{
    let mut nums: Vec<Option<i64>> = Vec::new();
    let mut start: usize = 0;
    let mut i: usize = 0;
    while i < t.len()
        invariant
            start <= i <= t.len(),
            split_colons(t@.take(i as int)).len() == nums.len() + 1,
            split_colons(t@.take(i as int)).last() == t@.subrange(start as int, i as int),
            forall|k: int|
                0 <= k < nums.len() ==> opt_int(#[trigger] nums@[k]) == parse_int(
                    trim(split_colons(t@.take(i as int))[k]),
                ),
        decreases t.len() - i,
    {
        let ghost parts = split_colons(t@.take(i as int));
        proof {
            lemma_split_colons_len(t@.take(i as int));
            assert(t@.take(i + 1).drop_last() =~= t@.take(i as int));
        }
        if t[i] == ':' {
            let (a, b) = trim_bounds(t, start, i);
            let n = parse_i64(t, a, b);
            nums.push(n);
            start = i + 1;
            assert(t@.subrange(start as int, i + 1) =~= Seq::<char>::empty());
            assert forall|k: int| 0 <= k < nums.len() implies opt_int(#[trigger] nums@[k])
                == parse_int(trim(split_colons(t@.take(i + 1))[k])) by {
                if k < nums.len() - 1 {
                    assert(split_colons(t@.take(i + 1))[k] == parts[k]);
                }
            }
        } else {
            assert(t@.subrange(start as int, i + 1) =~= t@.subrange(start as int, i as int).push(
                t@[i as int],
            ));
            assert forall|k: int| 0 <= k < nums.len() implies opt_int(#[trigger] nums@[k])
                == parse_int(trim(split_colons(t@.take(i + 1))[k])) by {
                assert(split_colons(t@.take(i + 1))[k] == parts[k]);
            }
        }
        i = i + 1;
    }
    assert(t@.take(i as int) =~= t@);
    let ghost parts = split_colons(t@);
    proof {
        lemma_split_colons_len(t@);
    }
    let ghost old_nums = nums@;
    let (a, b) = trim_bounds(t, start, i);
    let n = parse_i64(t, a, b);
    nums.push(n);
    assert forall|k: int| 0 <= k < nums.len() implies opt_int(#[trigger] nums@[k])
        == colon_field(t@, k) by {
        if k < nums.len() - 1 {
            assert(nums@[k] == old_nums[k]);
        }
    }
    let mut k: usize = 0;
    while k < nums.len()
        invariant
            k <= nums.len(),
            nums.len() == split_colons(t@).len(),
            forall|j: int| 0 <= j < nums.len() ==> opt_int(#[trigger] nums@[j]) == colon_field(t@, j),
            forall|j: int| 0 <= j < k ==> (#[trigger] nums@[j]) is Some,
        decreases nums.len() - k,
    {
        if nums[k].is_none() {
            assert(colon_field(t@, k as int) is None);
            return DurationEval::Failed(DurationError::Invalid);
        }
        k = k + 1;
    }
    assert forall|j: int| 0 <= j < nums.len() implies #[trigger] colon_field(t@, j) is Some by {
        assert(nums@[j] is Some);
    }
    if nums.len() == 2 {
        let m = nums[0].unwrap() as i128;
        let sec = nums[1].unwrap() as i128;
        assert(colon_field(t@, 0) is Some);
        assert(colon_field(t@, 1) is Some);
        let x = m * 60;
        if x < i64::MIN as i128 || x > i64::MAX as i128 {
            return DurationEval::Overflow;
        }
        let y = x + sec;
        if y < i64::MIN as i128 || y > i64::MAX as i128 {
            return DurationEval::Overflow;
        }
        DurationEval::Secs(y as i64)
    } else if nums.len() == 3 {
        let h = nums[0].unwrap() as i128;
        let m = nums[1].unwrap() as i128;
        let sec = nums[2].unwrap() as i128;
        assert(colon_field(t@, 0) is Some);
        assert(colon_field(t@, 1) is Some);
        assert(colon_field(t@, 2) is Some);
        let x = h * 3600;
        let y = m * 60;
        if x < i64::MIN as i128 || x > i64::MAX as i128 || y < i64::MIN as i128 || y
            > i64::MAX as i128 {
            return DurationEval::Overflow;
        }
        let z = x + y;
        if z < i64::MIN as i128 || z > i64::MAX as i128 {
            return DurationEval::Overflow;
        }
        let w = z + sec;
        if w < i64::MIN as i128 || w > i64::MAX as i128 {
            return DurationEval::Overflow;
        }
        DurationEval::Secs(w as i64)
    } else {
        DurationEval::Failed(DurationError::InvalidColon)
    }
}


/// Whether `t` holds a `:`.
fn has_colon(t: &Vec<char>) -> (r: bool)
    ensures
        r == t@.contains(':'),
{
    let mut i: usize = 0;
    while i < t.len()
        invariant
            i <= t.len(),
            forall|j: int| 0 <= j < i ==> t@[j] != ':',
        decreases t.len() - i,
    {
        if t[i] == ':' {
            return true;
        }
        i = i + 1;
    }
    false
}

/// Reads `raw` as a duration and says what that comes to, overflow
/// included: a caller can learn here whether `parse_duration` may be called.
pub fn evaluate_duration(raw: &str) -> (r: DurationEval)
    ensures
        r == duration_outcome(raw@),
{
    let v = chars_of(raw);
    let (lo, hi) = trim_bounds(&v, 0, v.len());
    assert(v@.subrange(0, v@.len() as int) =~= raw@);
    let t = sub_vec(&v, lo, hi);
    if t.len() == 0 {
        DurationEval::Failed(DurationError::Empty)
    } else if has_colon(&t) {
        eval_colon(&t)
    } else {
        eval_units(&t)
    }
}

/// Reads a segment duration: `25m`, `1h30m`, `90s` (a unit form: numbers
/// each followed by `s`, `m` or `h` in either case, white space ignored, a
/// last number without unit counting as seconds, the sum positive), or
/// `mm:ss` / `hh:mm:ss` (a colon form: each field an `i64` with optional
/// sign and surrounding white space). Surrounding white space is ignored.
pub fn parse_duration(raw: &str) -> (r: Result<i64, DurationError>)
    requires
        duration_outcome(raw@) != DurationEval::Overflow,
    ensures
        match r {
            Ok(secs) => duration_outcome(raw@) == DurationEval::Secs(secs),
            Err(e) => duration_outcome(raw@) == DurationEval::Failed(e),
        },
{
    match evaluate_duration(raw) {
        DurationEval::Secs(secs) => Ok(secs),
        DurationEval::Failed(e) => Err(e),
        // Ruled out by the precondition.
        DurationEval::Overflow => Err(DurationError::Invalid),
    }
}

impl DurationError {
    /// The message shown for this error, about the text `raw`.
    pub open spec fn message_text(self, raw: Seq<char>) -> Seq<char> {
        match self {
            DurationError::Empty => "empty duration"@,
            DurationError::Invalid => "invalid duration '"@ + raw + "'"@,
            DurationError::InvalidColon => "invalid colon duration '"@ + raw + "'"@,
            DurationError::UnknownUnit(c) => "unknown unit '"@ + seq![c] + "' in '"@ + raw
                + "'"@,
            DurationError::NotPositive => "duration must be positive: '"@ + raw + "'"@,
        }
    }

    /// The message shown for this error, about the text `raw`.
    pub fn message(&self, raw: &str) -> (r: String)
        ensures
            r@ == self.message_text(raw@),
    {
        match self {
            DurationError::Empty => String::from_str("empty duration"),
            DurationError::Invalid => {
                let mut s = String::from_str("invalid duration '");
                s.append(raw);
                s.append("'");
                s
            },
            DurationError::InvalidColon => {
                let mut s = String::from_str("invalid colon duration '");
                s.append(raw);
                s.append("'");
                s
            },
            DurationError::UnknownUnit(c) => {
                let mut s = String::from_str("unknown unit '");
                push_char(&mut s, *c);
                s.append("' in '");
                s.append(raw);
                s.append("'");
                proof {
                    assert(s@ =~= self.message_text(raw@));
                }
                s
            },
            DurationError::NotPositive => {
                let mut s = String::from_str("duration must be positive: '");
                s.append(raw);
                s.append("'");
                s
            },
        }
    }
}


/// Text without a `:` joins the last field.
pub proof fn lemma_split_colons_append(x: Seq<char>, y: Seq<char>)
    requires
        !y.contains(':'),
    ensures
        split_colons(x + y) == split_colons(x).update(
            split_colons(x).len() - 1,
            split_colons(x).last() + y,
        ),
    decreases y.len(),
{
    lemma_split_colons_len(x);
    if y.len() == 0 {
        assert(x + y =~= x);
        assert(split_colons(x).last() + y =~= split_colons(x).last());
        assert(split_colons(x).update(split_colons(x).len() - 1, split_colons(x).last())
            =~= split_colons(x));
    } else {
        let y1 = y.drop_last();
        assert(!y1.contains(':')) by {
            if y1.contains(':') {
                let i = choose|i: int| 0 <= i < y1.len() && y1[i] == ':';
                assert(y[i] == ':');
            }
        }
        assert(y.last() != ':') by {
            assert(y[y.len() - 1] == y.last());
        }
        lemma_split_colons_append(x, y1);
        assert((x + y).drop_last() =~= x + y1);
        assert((x + y).last() == y.last());
        assert((split_colons(x).last() + y1).push(y.last()) =~= split_colons(x).last() + y);
        assert(split_colons(x + y) =~= split_colons(x).update(
            split_colons(x).len() - 1,
            split_colons(x).last() + y,
        ));
    }
}

/// A `:` starts a new, empty field.
pub proof fn lemma_split_colons_colon(x: Seq<char>)
    ensures
        split_colons(x.push(':')) == split_colons(x).push(Seq::<char>::empty()),
{
    assert(x.push(':').drop_last() =~= x);
}

/// Text without a `:` is one field.
pub proof fn lemma_split_colons_single(a: Seq<char>)
    requires
        !a.contains(':'),
    ensures
        split_colons(a) == seq![a],
{
    lemma_split_colons_append(Seq::<char>::empty(), a);
    assert(Seq::<char>::empty() + a =~= a);
    assert(split_colons(Seq::<char>::empty()) =~= seq![Seq::<char>::empty()]);
    assert(Seq::<char>::empty() + a =~= a);
}

/// Text that neither starts nor ends with white space is its own trim.
pub proof fn lemma_trim_noop(s: Seq<char>)
    requires
        s.len() > 0,
        !white_space(s[0]),
        !white_space(s.last()),
    ensures
        trim(s) == s,
{
}

} // verus!
