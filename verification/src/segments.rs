//! The segment list: the entries of `segments.yaml` as they are written, and
//! the segments that the timer counts down.

use vstd::prelude::*;
use crate::duration::{duration_outcome, evaluate_duration, parse_duration, DurationError, DurationEval};

verus! {

/// One entry of `segments.yaml` as written: a name, a duration text and an
/// optional description.
#[derive(Debug)]
pub struct SegmentSpec {
    pub name: String,
    pub duration: String,
    pub description: Option<String>,
}

/// A segment of the workshop, its duration in whole seconds.
#[derive(Debug)]
pub struct Segment {
    pub name: String,
    pub description: Option<String>,
    pub duration_secs: i64,
}

/// The characters of an optional text.
pub open spec fn opt_text(o: Option<String>) -> Option<Seq<char>> {
    match o {
        Some(s) => Some(s@),
        None => None,
    }
}

pub fn clone_opt_text(o: &Option<String>) -> (r: Option<String>)
    ensures
        opt_text(r) == opt_text(*o),
{
    match o {
        Some(s) => Some(s.clone()),
        None => None,
    }
}

/// The entry whose duration would not read, and why.
#[derive(Debug)]
pub struct SegmentError {
    pub index: usize,
    pub name: String,
    pub duration: String,
    pub error: DurationError,
}

impl SegmentError {
    pub open spec fn message_text(self) -> Seq<char> {
        "segment '"@ + self.name@ + "': "@ + self.error.message_text(self.duration@)
    }

    /// The message shown when the segment list is refused.
    pub fn message(&self) -> (r: String)
        ensures
            r@ == self.message_text(),
    {
        let mut s = String::from_str("segment '");
        s.append(self.name.as_str());
        s.append("': ");
        let m = self.error.message(self.duration.as_str());
        s.append(m.as_str());
        s
    }
}

/// The duration of entry `i` reads as a number of seconds.
pub open spec fn entry_reads(specs: Seq<SegmentSpec>, i: int) -> bool {
    duration_outcome(specs[i].duration@) is Secs
}

/// The entries are read in order and reading stops at the first refusal,
/// so only a duration that is reached must stay within `i64`.
pub open spec fn entries_in_range(specs: Seq<SegmentSpec>) -> bool {
    forall|k: int|
        0 <= k < specs.len() && (forall|i: int| 0 <= i < k ==> #[trigger] entry_reads(specs, i))
            ==> duration_outcome(#[trigger] specs[k].duration@) != DurationEval::Overflow
}

/// Turns the entries into segments, in order, reading each duration with
/// `parse_duration`; the first entry whose duration is refused refuses the
/// whole list.
pub fn build_segments(specs: &Vec<SegmentSpec>) -> (r: Result<Vec<Segment>, SegmentError>)
    requires
        entries_in_range(specs@),
    ensures
        r is Ok <==> (forall|i: int| 0 <= i < specs.len() ==> #[trigger] entry_reads(specs@, i)),
        r matches Ok(v) ==> {
            &&& v.len() == specs.len()
            &&& forall|i: int|
                0 <= i < v.len() ==> {
                    &&& (#[trigger] v@[i]).name@ == specs@[i].name@
                    &&& opt_text(v@[i].description) == opt_text(specs@[i].description)
                    &&& duration_outcome(specs@[i].duration@) == DurationEval::Secs(
                        v@[i].duration_secs,
                    )
                }
        },
        r matches Err(e) ==> {
            &&& e.index < specs.len()
            &&& forall|i: int| 0 <= i < e.index ==> #[trigger] entry_reads(specs@, i)
            &&& duration_outcome(specs@[e.index as int].duration@) == DurationEval::Failed(
                e.error,
            )
            &&& e.name@ == specs@[e.index as int].name@
            &&& e.duration@ == specs@[e.index as int].duration@
        },
{
    let mut out: Vec<Segment> = Vec::new();
    let mut i: usize = 0;
    while i < specs.len()
        invariant
            i <= specs.len(),
            entries_in_range(specs@),
            out.len() == i,
            forall|j: int| 0 <= j < i ==> #[trigger] entry_reads(specs@, j),
            forall|j: int|
                0 <= j < i ==> {
                    &&& (#[trigger] out@[j]).name@ == specs@[j].name@
                    &&& opt_text(out@[j].description) == opt_text(specs@[j].description)
                    &&& duration_outcome(specs@[j].duration@) == DurationEval::Secs(
                        out@[j].duration_secs,
                    )
                },
        decreases specs.len() - i,
    {
        let spec = &specs[i];
        assert(duration_outcome(specs@[i as int].duration@) != DurationEval::Overflow);
        match parse_duration(spec.duration.as_str()) {
            Ok(d) => {
                let seg = Segment {
                    name: spec.name.clone(),
                    description: clone_opt_text(&spec.description),
                    duration_secs: d,
                };
                out.push(seg);
                assert(entry_reads(specs@, i as int));
            },
            Err(e) => {
                assert(!entry_reads(specs@, i as int));
                return Err(
                    SegmentError {
                        index: i,
                        name: spec.name.clone(),
                        duration: spec.duration.clone(),
                        error: e,
                    },
                );
            },
        }
        i = i + 1;
    }
    Ok(out)
}


/// Whether `build_segments` may be given these entries: no duration that it
/// reaches overflows `i64`.
pub fn entries_within_range(specs: &Vec<SegmentSpec>) -> (r: bool)
    ensures
        r == entries_in_range(specs@),
{
    let mut i: usize = 0;
    while i < specs.len()
        invariant
            i <= specs.len(),
            forall|j: int| 0 <= j < i ==> #[trigger] entry_reads(specs@, j),
        decreases specs.len() - i,
    {
        match evaluate_duration(specs[i].duration.as_str()) {
            DurationEval::Secs(_) => {},
            DurationEval::Failed(_) => {
                assert(!entry_reads(specs@, i as int));
                assert forall|k: int|
                    0 <= k < specs.len() && (forall|j: int|
                        0 <= j < k ==> #[trigger] entry_reads(specs@, j))
                        implies duration_outcome(#[trigger] specs@[k].duration@)
                        != DurationEval::Overflow by {
                    if k > i {
                        assert(entry_reads(specs@, i as int));
                    } else if k < i {
                        assert(entry_reads(specs@, k));
                    }
                }
                return true;
            },
            DurationEval::Overflow => {
                assert(duration_outcome(specs@[i as int].duration@) == DurationEval::Overflow);
                return false;
            },
        }
        i = i + 1;
    }
    assert forall|k: int|
        0 <= k < specs.len() && (forall|j: int| 0 <= j < k ==> #[trigger] entry_reads(specs@, j))
            implies duration_outcome(#[trigger] specs@[k].duration@) != DurationEval::Overflow by {
        assert(entry_reads(specs@, k));
    }
    true
}

} // verus!
