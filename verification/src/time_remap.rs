//! Mapping between the time of the exported video and the time of the source
//! recording, with cuts removed and speed ramps applied.
//!
//! A playback speed is a whole number of `SPEED_UNIT`-ths. With 25 binary
//! places every speed between a quarter and four that a host can express in
//! single precision has an exact counterpart.
//!
//! The module `laws` states what holds of every remapper.

pub mod laws;

use vstd::prelude::*;
use crate::fixed::{clamp_int, div_round, round_div};
use crate::order::{is_ordered, ordered, sort_by_time, Timed};
use crate::types::{copy_of, Timestamp};

verus! {

/// The speed at which source and export run alike.
pub const SPEED_UNIT: u32 = 33_554_432;

/// The lowest speed of a ramp: a quarter of normal.
pub const SPEED_MIN: u32 = 8_388_608;

/// The highest speed of a ramp: four times normal.
pub const SPEED_MAX: u32 = 134_217_728;

/// The source time from `start` up to, not including, `end`.
#[derive(Debug, Clone, Copy, PartialEq, Eq, Structural)]
pub struct TimeRange {
    pub start: Timestamp,
    pub end: Timestamp,
}

impl TimeRange {
    /// The instant `t` lies in the range.
    pub open spec fn holds(self, t: int) -> bool {
        self.start.0 <= t < self.end.0
    }

    /// The length of the range; a range that ends before it starts has none.
    pub open spec fn length(self) -> int {
        if self.start.0 <= self.end.0 {
            self.end.0 - self.start.0
        } else {
            0
        }
    }

    /// The range from `start` up to, not including, `end`.
    pub fn new(start: Timestamp, end: Timestamp) -> (r: TimeRange)
        ensures
            r.start == start,
            r.end == end,
    {
        TimeRange { start, end }
    }

    /// The length of the range in microseconds.
    pub fn duration(&self) -> (d: u64)
        ensures
            d == self.length(),
    {
        self.end.0.saturating_sub(self.start.0)
    }

    /// Whether `ts` lies in the range. The start belongs to it, the end does not.
    pub fn contains(&self, ts: Timestamp) -> (b: bool)
        ensures
            b == self.holds(ts.0 as int),
    {
        ts.0 >= self.start.0 && ts.0 < self.end.0
    }
}

impl Timed for TimeRange {
    open spec fn time(&self) -> u64 {
        self.start.0
    }

    fn time_of(&self) -> (t: u64) {
        self.start.0
    }
}

/// The speed that a ramp plays at: `speed` brought between `SPEED_MIN` and
/// `SPEED_MAX`.
pub open spec fn clamp_speed(speed: int) -> int {
    clamp_int(speed, SPEED_MIN as int, SPEED_MAX as int)
}

/// The export time that `len` microseconds of source take at `speed`:
/// `len / speed`, rounded to the nearest microsecond.
pub open spec fn export_length(len: int, speed: int) -> int {
    round_div(len * SPEED_UNIT, speed)
}

/// The source time that `len` microseconds of export cover at `speed`:
/// `len * speed`, rounded to the nearest microsecond.
pub open spec fn source_length(len: int, speed: int) -> int {
    round_div(len * speed, SPEED_UNIT as int)
}

/// `v`, or the largest timestamp where `v` is beyond it.
pub open spec fn saturated(v: int) -> int {
    if v > u64::MAX {
        u64::MAX as int
    } else {
        v
    }
}

/// A stretch of source time that is played faster or slower than normal.
#[derive(Debug, Clone, Copy, PartialEq, Eq, Structural)]
pub struct SpeedRamp {
    pub range: TimeRange,
    /// In `SPEED_UNIT`-ths, from `SPEED_MIN` to `SPEED_MAX`.
    pub speed: u32,
}

impl SpeedRamp {
    /// The speed is within the limits.
    pub open spec fn is_valid(self) -> bool {
        SPEED_MIN <= self.speed <= SPEED_MAX
    }

    /// The speed that the ramp plays at.
    pub open spec fn pace(self) -> int {
        clamp_speed(self.speed as int)
    }

    /// A ramp over `range`. A speed outside the limits becomes the nearer limit.
    pub fn new(range: TimeRange, speed: u32) -> (r: SpeedRamp)
        ensures
            r.range == range,
            r.speed == clamp_speed(speed as int),
            r.is_valid(),
    {
        SpeedRamp { range, speed: clamp_ramp_speed(speed) }
    }

    /// The time that the ramp takes in the export, in microseconds.
    pub fn export_duration(&self) -> (d: u64)
        ensures
            d == saturated(export_length(self.range.length(), self.pace())),
    {
        let len: u128 = segment_export_length(self.range.duration(), self.speed);
        if len > u64::MAX as u128 {
            u64::MAX
        } else {
            len as u64
        }
    }
}

impl Timed for SpeedRamp {
    open spec fn time(&self) -> u64 {
        self.range.start.0
    }

    fn time_of(&self) -> (t: u64) {
        self.range.start.0
    }
}

/// Brings a speed between the two limits.
pub fn clamp_ramp_speed(speed: u32) -> (s: u32)
    ensures
        s == clamp_speed(speed as int),
        SPEED_MIN <= s <= SPEED_MAX,
{
    if speed < SPEED_MIN {
        SPEED_MIN
    } else if speed > SPEED_MAX {
        SPEED_MAX
    } else {
        speed
    }
}

/// The export time of a segment of `len` microseconds at `speed`, the speed
/// brought within the limits. Both the export duration and the mapping to
/// source time go through this function, so that they round alike.
pub fn segment_export_length(len: u64, speed: u32) -> (e: u128)
    ensures
        e == export_length(len as int, clamp_speed(speed as int)),
{
    assert(len * SPEED_UNIT <= 0xffff_ffff_ffff_ffff * 33_554_432) by (nonlinear_arith)
        requires
            len <= 0xffff_ffff_ffff_ffff,
            SPEED_UNIT == 33_554_432,
    ;
    div_round(len as u128 * SPEED_UNIT as u128, clamp_ramp_speed(speed) as u128)
}

/// The source time that `len` microseconds of export cover at `speed`, the
/// speed brought within the limits.
pub fn segment_source_length(len: u64, speed: u32) -> (s: u128)
    ensures
        s == source_length(len as int, clamp_speed(speed as int)),
{
    let pace: u32 = clamp_ramp_speed(speed);
    assert(len * pace <= 0xffff_ffff_ffff_ffff * 134_217_728) by (nonlinear_arith)
        requires
            len <= 0xffff_ffff_ffff_ffff,
            pace <= 134_217_728,
    ;
    div_round(len as u128 * pace as u128, SPEED_UNIT as u128)
}

/// Some cut holds the instant `t`.
pub open spec fn in_cut(cuts: Seq<TimeRange>, t: int) -> bool {
    exists|i: int| 0 <= i < cuts.len() && #[trigger] cuts[i].holds(t)
}

/// The end of the first cut that holds `t`; `t` itself where none does.
/// `lemma_first_cut_end_first` tells it from the place of that cut.
pub open spec fn first_cut_end(cuts: Seq<TimeRange>, t: int) -> int
    decreases cuts.len(),
{
    if cuts.len() == 0 {
        t
    } else if cuts.first().holds(t) {
        cuts.first().end.0 as int
    } else {
        first_cut_end(cuts.drop_first(), t)
    }
}

/// The speed at the instant `t`: that of the first ramp that holds `t`, and
/// normal speed where none does. `lemma_speed_of_first` tells it from the
/// place of that ramp.
pub open spec fn speed_of(ramps: Seq<SpeedRamp>, t: int) -> int
    decreases ramps.len(),
{
    if ramps.len() == 0 {
        SPEED_UNIT as int
    } else if ramps.first().range.holds(t) {
        ramps.first().pace()
    } else {
        speed_of(ramps.drop_first(), t)
    }
}

/// The nearest instant after `t` at which a cut starts, if that is before
/// `bound`; `bound` otherwise.
pub open spec fn nearest_start(cuts: Seq<TimeRange>, t: int, bound: int) -> int
    decreases cuts.len(),
{
    if cuts.len() == 0 {
        bound
    } else {
        let rest = nearest_start(cuts.drop_last(), t, bound);
        let s = cuts.last().start.0 as int;
        if t < s < rest {
            s
        } else {
            rest
        }
    }
}

/// The nearest instant after `t` at which a ramp starts or ends, if that is
/// before `bound`; `bound` otherwise.
pub open spec fn nearest_edge(ramps: Seq<SpeedRamp>, t: int, bound: int) -> int
    decreases ramps.len(),
{
    if ramps.len() == 0 {
        bound
    } else {
        let rest = nearest_edge(ramps.drop_last(), t, bound);
        let s = ramps.last().range.start.0 as int;
        let e = ramps.last().range.end.0 as int;
        let nearer = if t < s < rest {
            s
        } else {
            rest
        };
        if t < e < nearer {
            e
        } else {
            nearer
        }
    }
}

/// The end of the segment that starts at `t`: the nearest instant after `t`
/// at which a cut starts or a ramp starts or ends, and `out` if none comes
/// before it. `lemma_next_boundary` shows that it is that instant, and
/// `lemma_next_boundary_unique` that no other is.
pub open spec fn next_boundary(
    cuts: Seq<TimeRange>,
    ramps: Seq<SpeedRamp>,
    out: int,
    t: int,
) -> int {
    nearest_edge(ramps, t, nearest_start(cuts, t, out))
}

/// The instant `p` is the start of a cut or the start or end of a ramp.
pub open spec fn is_edge(cuts: Seq<TimeRange>, ramps: Seq<SpeedRamp>, p: int) -> bool {
    ||| exists|i: int| 0 <= i < cuts.len() && #[trigger] cuts[i].start.0 == p
    ||| exists|i: int| 0 <= i < ramps.len() && #[trigger] ramps[i].range.start.0 == p
    ||| exists|i: int| 0 <= i < ramps.len() && #[trigger] ramps[i].range.end.0 == p
}

/// Where nothing holds `t`, `first_cut_end` leaves it; where a cut does, it
/// names the end of one, and that end lies after `t`.
pub proof fn lemma_first_cut_end(cuts: Seq<TimeRange>, t: int)
    ensures
        in_cut(cuts, t) <==> t < first_cut_end(cuts, t),
        !in_cut(cuts, t) ==> first_cut_end(cuts, t) == t,
        in_cut(cuts, t) ==> first_cut_end(cuts, t) <= u64::MAX,
        in_cut(cuts, t) ==> exists|i: int|
            0 <= i < cuts.len() && #[trigger] cuts[i].holds(t) && cuts[i].end.0 == first_cut_end(
                cuts,
                t,
            ),
    decreases cuts.len(),
{
    if cuts.len() == 0 {
    } else if cuts.first().holds(t) {
        assert(cuts[0].holds(t));
    } else {
        let rest = cuts.drop_first();
        lemma_first_cut_end(rest, t);
        if in_cut(rest, t) {
            let i = choose|i: int|
                0 <= i < rest.len() && #[trigger] rest[i].holds(t) && rest[i].end.0
                    == first_cut_end(rest, t);
            assert(cuts[i + 1] == rest[i]);
            assert(cuts[i + 1].holds(t));
        }
        if in_cut(cuts, t) {
            let i = choose|i: int| 0 <= i < cuts.len() && #[trigger] cuts[i].holds(t);
            assert(rest[i - 1] == cuts[i]);
            assert(rest[i - 1].holds(t));
        }
    }
}

/// The first instant at or after `t` that no cut holds. `lemma_clear_from`
/// shows that it is that instant, and `lemma_clear_from_unique` that no other
/// is.
pub open spec fn clear_from(cuts: Seq<TimeRange>, t: int) -> int
    decreases u64::MAX - t,
    via clear_from_decreases
{
    if in_cut(cuts, t) {
        clear_from(cuts, first_cut_end(cuts, t))
    } else {
        t
    }
}

#[via_fn]
proof fn clear_from_decreases(cuts: Seq<TimeRange>, t: int) {
    lemma_first_cut_end(cuts, t);
}

/// `clear_from` names an instant that no cut holds, and every instant that it
/// passes over lies in a cut.
pub proof fn lemma_clear_from(cuts: Seq<TimeRange>, t: int)
    ensures
        t <= clear_from(cuts, t),
        !in_cut(cuts, clear_from(cuts, t)),
        forall|p: int| t <= p < clear_from(cuts, t) ==> in_cut(cuts, p),
    decreases u64::MAX - t,
{
    lemma_first_cut_end(cuts, t);
    if in_cut(cuts, t) {
        let e = first_cut_end(cuts, t);
        let i = choose|i: int|
            0 <= i < cuts.len() && #[trigger] cuts[i].holds(t) && cuts[i].end.0 == e;
        lemma_clear_from(cuts, e);
        assert forall|p: int| t <= p < clear_from(cuts, t) implies in_cut(cuts, p) by {
            if p < e {
                assert(cuts[i].holds(p));
            }
        }
    }
}

/// Where a source walk resumes at or after `t`: at the first instant that no
/// cut holds, and at `out` if that lies beyond it.
pub open spec fn resume_at(cuts: Seq<TimeRange>, out: int, t: int) -> int {
    if clear_from(cuts, t) < out {
        clear_from(cuts, t)
    } else {
        out
    }
}

/// `nearest_start` is the least of `bound` and the cut starts after `t`.
pub proof fn lemma_nearest_start(cuts: Seq<TimeRange>, t: int, bound: int)
    requires
        t < bound,
    ensures
        t < nearest_start(cuts, t, bound) <= bound,
        nearest_start(cuts, t, bound) == bound || exists|i: int|
            0 <= i < cuts.len() && #[trigger] cuts[i].start.0 == nearest_start(cuts, t, bound),
        forall|i: int|
            0 <= i < cuts.len() && t < (#[trigger] cuts[i]).start.0 ==> nearest_start(
                cuts,
                t,
                bound,
            ) <= cuts[i].start.0,
    decreases cuts.len(),
{
    if cuts.len() > 0 {
        let head = cuts.drop_last();
        let r = nearest_start(cuts, t, bound);
        lemma_nearest_start(head, t, bound);
        let rest = nearest_start(head, t, bound);
        if r != bound {
            if r == cuts.last().start.0 && t < r < rest {
                assert(cuts[cuts.len() - 1].start.0 == r);
            } else {
                let i = choose|i: int| 0 <= i < head.len() && #[trigger] head[i].start.0 == rest;
                assert(cuts[i] == head[i]);
                assert(cuts[i].start.0 == r);
            }
        }
        assert forall|i: int| 0 <= i < cuts.len() && t < (#[trigger] cuts[i]).start.0 implies r
            <= cuts[i].start.0 by {
            if i < head.len() {
                assert(cuts[i] == head[i]);
            }
        }
    }
}

/// `nearest_edge` is the least of `bound` and the ramp starts and ends after `t`.
pub proof fn lemma_nearest_edge(ramps: Seq<SpeedRamp>, t: int, bound: int)
    requires
        t < bound,
    ensures
        t < nearest_edge(ramps, t, bound) <= bound,
        nearest_edge(ramps, t, bound) == bound || (exists|i: int|
            0 <= i < ramps.len() && #[trigger] ramps[i].range.start.0 == nearest_edge(
                ramps,
                t,
                bound,
            )) || (exists|i: int|
            0 <= i < ramps.len() && #[trigger] ramps[i].range.end.0 == nearest_edge(
                ramps,
                t,
                bound,
            )),
        forall|i: int|
            0 <= i < ramps.len() && t < (#[trigger] ramps[i]).range.start.0 ==> nearest_edge(
                ramps,
                t,
                bound,
            ) <= ramps[i].range.start.0,
        forall|i: int|
            0 <= i < ramps.len() && t < (#[trigger] ramps[i]).range.end.0 ==> nearest_edge(
                ramps,
                t,
                bound,
            ) <= ramps[i].range.end.0,
    decreases ramps.len(),
{
    if ramps.len() > 0 {
        let head = ramps.drop_last();
        let last = ramps.last();
        let r = nearest_edge(ramps, t, bound);
        lemma_nearest_edge(head, t, bound);
        let rest = nearest_edge(head, t, bound);
        let s = last.range.start.0 as int;
        let e = last.range.end.0 as int;
        let nearer = if t < s < rest {
            s
        } else {
            rest
        };
        if r != bound {
            if t < e < nearer {
                assert(ramps[ramps.len() - 1].range.end.0 == r);
            } else if t < s < rest {
                assert(ramps[ramps.len() - 1].range.start.0 == r);
            } else {
                assert(r == rest);
                if exists|i: int| 0 <= i < head.len() && #[trigger] head[i].range.start.0 == rest {
                    let i = choose|i: int|
                        0 <= i < head.len() && #[trigger] head[i].range.start.0 == rest;
                    assert(ramps[i] == head[i]);
                    assert(ramps[i].range.start.0 == r);
                } else {
                    let i = choose|i: int|
                        0 <= i < head.len() && #[trigger] head[i].range.end.0 == rest;
                    assert(ramps[i] == head[i]);
                    assert(ramps[i].range.end.0 == r);
                }
            }
        }
        assert forall|i: int| 0 <= i < ramps.len() && t < (#[trigger] ramps[i]).range.start.0
            implies r <= ramps[i].range.start.0 by {
            if i < head.len() {
                assert(ramps[i] == head[i]);
            }
        }
        assert forall|i: int| 0 <= i < ramps.len() && t < (#[trigger] ramps[i]).range.end.0
            implies r <= ramps[i].range.end.0 by {
            if i < head.len() {
                assert(ramps[i] == head[i]);
            }
        }
    }
}

/// A segment ends after it starts and at `out` at the latest; it ends at
/// `out` or at an edge; and no cut starts and no ramp starts or ends inside it.
pub proof fn lemma_next_boundary(cuts: Seq<TimeRange>, ramps: Seq<SpeedRamp>, out: int, t: int)
    requires
        t < out,
    ensures
        t < next_boundary(cuts, ramps, out, t) <= out,
        next_boundary(cuts, ramps, out, t) == out || is_edge(
            cuts,
            ramps,
            next_boundary(cuts, ramps, out, t),
        ),
        forall|i: int|
            0 <= i < cuts.len() && t < (#[trigger] cuts[i]).start.0 ==> next_boundary(
                cuts,
                ramps,
                out,
                t,
            ) <= cuts[i].start.0,
        forall|i: int|
            0 <= i < ramps.len() && t < (#[trigger] ramps[i]).range.start.0 ==> next_boundary(
                cuts,
                ramps,
                out,
                t,
            ) <= ramps[i].range.start.0,
        forall|i: int|
            0 <= i < ramps.len() && t < (#[trigger] ramps[i]).range.end.0 ==> next_boundary(
                cuts,
                ramps,
                out,
                t,
            ) <= ramps[i].range.end.0,
{
    lemma_nearest_start(cuts, t, out);
    lemma_nearest_edge(ramps, t, nearest_start(cuts, t, out));
}

/// The speed at an instant is that of the ramp that holds it and stands
/// before every other ramp that does; with no such ramp it is normal.
pub proof fn lemma_speed_of_first(ramps: Seq<SpeedRamp>, t: int, j: int)
    requires
        0 <= j <= ramps.len(),
        forall|k: int| 0 <= k < j ==> !(#[trigger] ramps[k]).range.holds(t),
        j < ramps.len() ==> ramps[j].range.holds(t),
    ensures
        speed_of(ramps, t) == (if j < ramps.len() {
            ramps[j].pace()
        } else {
            SPEED_UNIT as int
        }),
    decreases ramps.len(),
{
    if ramps.len() > 0 && j > 0 {
        let rest = ramps.drop_first();
        assert(!ramps[0].range.holds(t));
        assert forall|k: int| 0 <= k < j - 1 implies !(#[trigger] rest[k]).range.holds(t) by {
            assert(rest[k] == ramps[k + 1]);
        }
        if j < ramps.len() {
            assert(rest[j - 1] == ramps[j]);
        }
        lemma_speed_of_first(rest, t, j - 1);
    }
}

/// The end that `first_cut_end` names is that of the cut that holds the
/// instant and stands before every other cut that does.
pub proof fn lemma_first_cut_end_first(cuts: Seq<TimeRange>, t: int, j: int)
    requires
        0 <= j <= cuts.len(),
        forall|k: int| 0 <= k < j ==> !(#[trigger] cuts[k]).holds(t),
        j < cuts.len() ==> cuts[j].holds(t),
    ensures
        first_cut_end(cuts, t) == (if j < cuts.len() {
            cuts[j].end.0 as int
        } else {
            t
        }),
    decreases cuts.len(),
{
    if cuts.len() > 0 && j > 0 {
        let rest = cuts.drop_first();
        assert(!cuts[0].holds(t));
        assert forall|k: int| 0 <= k < j - 1 implies !(#[trigger] rest[k]).holds(t) by {
            assert(rest[k] == cuts[k + 1]);
        }
        if j < cuts.len() {
            assert(rest[j - 1] == cuts[j]);
        }
        lemma_first_cut_end_first(rest, t, j - 1);
    }
}

/// Only one instant is the first at or after `t` that no cut holds.
pub proof fn lemma_clear_from_unique(cuts: Seq<TimeRange>, t: int, c: int)
    requires
        t <= c,
        !in_cut(cuts, c),
        forall|p: int| t <= p < c ==> in_cut(cuts, p),
    ensures
        clear_from(cuts, t) == c,
{
    lemma_clear_from(cuts, t);
}

/// Only one instant is the end of the segment that starts at `t`: the least
/// among the out point and the edges after `t`.
pub proof fn lemma_next_boundary_unique(
    cuts: Seq<TimeRange>,
    ramps: Seq<SpeedRamp>,
    out: int,
    t: int,
    b: int,
)
    requires
        t < b <= out,
        b == out || is_edge(cuts, ramps, b),
        forall|i: int| 0 <= i < cuts.len() && t < (#[trigger] cuts[i]).start.0 ==> b <= cuts[i].start.0,
        forall|i: int|
            0 <= i < ramps.len() && t < (#[trigger] ramps[i]).range.start.0 ==> b
                <= ramps[i].range.start.0,
        forall|i: int|
            0 <= i < ramps.len() && t < (#[trigger] ramps[i]).range.end.0 ==> b
                <= ramps[i].range.end.0,
    ensures
        next_boundary(cuts, ramps, out, t) == b,
{
    lemma_next_boundary(cuts, ramps, out, t);
    let n = next_boundary(cuts, ramps, out, t);
    if b != out {
        if exists|i: int| 0 <= i < cuts.len() && #[trigger] cuts[i].start.0 == b {
            let i = choose|i: int| 0 <= i < cuts.len() && #[trigger] cuts[i].start.0 == b;
            assert(n <= cuts[i].start.0);
        } else if exists|i: int| 0 <= i < ramps.len() && #[trigger] ramps[i].range.start.0 == b {
            let i = choose|i: int| 0 <= i < ramps.len() && #[trigger] ramps[i].range.start.0 == b;
            assert(n <= ramps[i].range.start.0);
        } else {
            let i = choose|i: int| 0 <= i < ramps.len() && #[trigger] ramps[i].range.end.0 == b;
            assert(n <= ramps[i].range.end.0);
        }
    }
    if n != out {
        if exists|i: int| 0 <= i < cuts.len() && #[trigger] cuts[i].start.0 == n {
            let i = choose|i: int| 0 <= i < cuts.len() && #[trigger] cuts[i].start.0 == n;
            assert(b <= cuts[i].start.0);
        } else if exists|i: int| 0 <= i < ramps.len() && #[trigger] ramps[i].range.start.0 == n {
            let i = choose|i: int| 0 <= i < ramps.len() && #[trigger] ramps[i].range.start.0 == n;
            assert(b <= ramps[i].range.start.0);
        } else {
            let i = choose|i: int| 0 <= i < ramps.len() && #[trigger] ramps[i].range.end.0 == n;
            assert(b <= ramps[i].range.end.0);
        }
    }
}

/// Every speed lies between the two limits.
pub proof fn lemma_speed_of_range(ramps: Seq<SpeedRamp>, t: int)
    ensures
        SPEED_MIN <= speed_of(ramps, t) <= SPEED_MAX,
    decreases ramps.len(),
{
    if ramps.len() > 0 && !ramps.first().range.holds(t) {
        lemma_speed_of_range(ramps.drop_first(), t);
    }
}

/// An export time that ends inside a segment maps to a source time inside the
/// segment or at its end, and before its end unless the segment is slowed.
pub proof fn lemma_source_length_within(rest: int, len: int, speed: int)
    requires
        0 <= rest < export_length(len, speed),
        0 <= len,
        SPEED_MIN <= speed <= SPEED_MAX,
    ensures
        0 <= source_length(rest, speed) <= len,
        SPEED_UNIT <= speed ==> source_length(rest, speed) < len,
{
    let unit = SPEED_UNIT as int;
    let whole = len * unit;
    let part = rest * speed;
    let e = export_length(len, speed);
    crate::fixed::lemma_round_div_bounds(whole, speed);
    assert(0 <= part) by (nonlinear_arith)
        requires
            0 <= rest,
            0 < speed,
            part == rest * speed,
    ;
    assert(2 * part + 2 * speed <= 2 * e * speed) by (nonlinear_arith)
        requires
            rest + 1 <= e,
            0 < speed,
            part == rest * speed,
    ;
    crate::fixed::lemma_round_div_bounds(part, unit);
    if SPEED_UNIT <= speed {
        assert(2 * part + unit < 2 * whole);
    }
}

/// The export time of the source from `t` to `out`: cut material adds
/// nothing, and every segment adds its length divided by its speed, rounded
/// by itself.
pub open spec fn export_from(cuts: Seq<TimeRange>, ramps: Seq<SpeedRamp>, out: int, t: int) -> int
    decreases out - t,
    via export_from_decreases
{
    if t >= out {
        0
    } else if in_cut(cuts, t) {
        export_from(
            cuts,
            ramps,
            out,
            if first_cut_end(cuts, t) < out {
                first_cut_end(cuts, t)
            } else {
                out
            },
        )
    } else {
        let b = next_boundary(cuts, ramps, out, t);
        export_length(b - t, speed_of(ramps, t)) + export_from(cuts, ramps, out, b)
    }
}

#[via_fn]
proof fn export_from_decreases(cuts: Seq<TimeRange>, ramps: Seq<SpeedRamp>, out: int, t: int) {
    if t < out {
        lemma_first_cut_end(cuts, t);
        lemma_next_boundary(cuts, ramps, out, t);
    }
}

/// The source time reached from `t`, an instant outside every cut, after
/// `rest` microseconds of export.
pub open spec fn source_from(
    cuts: Seq<TimeRange>,
    ramps: Seq<SpeedRamp>,
    out: int,
    t: int,
    rest: int,
) -> int
    decreases out - t,
    via source_from_decreases
{
    if t >= out {
        out
    } else if rest <= 0 {
        t
    } else {
        let b = next_boundary(cuts, ramps, out, t);
        let speed = speed_of(ramps, t);
        let len = export_length(b - t, speed);
        if rest < len {
            t + source_length(rest, speed)
        } else {
            source_from(cuts, ramps, out, resume_at(cuts, out, b), rest - len)
        }
    }
}

#[via_fn]
proof fn source_from_decreases(
    cuts: Seq<TimeRange>,
    ramps: Seq<SpeedRamp>,
    out: int,
    t: int,
    rest: int,
) {
    if t < out {
        lemma_next_boundary(cuts, ramps, out, t);
        lemma_clear_from(cuts, next_boundary(cuts, ramps, out, t));
    }
}

/// What a remapper stands for: its cuts and ramps, each in order of their
/// starts, and the two trim points.
pub struct Timeline {
    pub cuts: Seq<TimeRange>,
    pub ramps: Seq<SpeedRamp>,
    pub in_point: int,
    pub out_point: int,
}

impl Timeline {
    /// The cuts and the ramps are each in order of their starts.
    pub open spec fn is_ordered(self) -> bool {
        is_ordered(self.cuts) && is_ordered(self.ramps)
    }

    /// Some cut holds the source instant `t`.
    pub open spec fn is_cut(self, t: int) -> bool {
        in_cut(self.cuts, t)
    }

    /// The speed at the source instant `t`.
    pub open spec fn speed_at(self, t: int) -> int {
        speed_of(self.ramps, t)
    }

    /// The first source instant of the export: the in point, or what follows
    /// the cuts that hold it.
    pub open spec fn first_source(self) -> int {
        resume_at(self.cuts, self.out_point, self.in_point)
    }

    /// The length of the export in microseconds.
    pub open spec fn export_length(self) -> int {
        export_from(self.cuts, self.ramps, self.out_point, self.in_point)
    }

    /// The source instant that is shown `e` microseconds into the export.
    pub open spec fn source_time(self, e: int) -> int {
        source_from(self.cuts, self.ramps, self.out_point, self.first_source(), e)
    }
}

/// Maps export time to source time over a trimmed source with cuts and ramps.
#[derive(Debug)]
pub struct TimeRemapper {
    cuts: Vec<TimeRange>,
    speed_ramps: Vec<SpeedRamp>,
    in_point: Timestamp,
    out_point: Timestamp,
}

impl View for TimeRemapper {
    type V = Timeline;

    closed spec fn view(&self) -> Timeline {
        Timeline {
            cuts: self.cuts@,
            ramps: self.speed_ramps@,
            in_point: self.in_point.0 as int,
            out_point: self.out_point.0 as int,
        }
    }
}

impl Clone for TimeRemapper {
    fn clone(&self) -> (r: TimeRemapper)
        ensures
            r@ == self@,
    {
        proof {
            use_type_invariant(self);
        }
        TimeRemapper {
            cuts: copy_of(&self.cuts),
            speed_ramps: copy_of(&self.speed_ramps),
            in_point: self.in_point,
            out_point: self.out_point,
        }
    }
}

impl TimeRemapper {
    /// The cuts and the ramps are each in order of their starts.
    #[verifier::type_invariant]
    spec fn in_order(self) -> bool {
        is_ordered(self.cuts@) && is_ordered(self.speed_ramps@)
    }

    /// A remapper over the source from `in_point` to `out_point`. The cuts and
    /// the ramps are each put in order of their starts.
    pub fn new(
        cuts: Vec<TimeRange>,
        speed_ramps: Vec<SpeedRamp>,
        in_point: Timestamp,
        out_point: Timestamp,
    ) -> (r: TimeRemapper)
        ensures
            r@.cuts == ordered(cuts@),
            r@.ramps == ordered(speed_ramps@),
            r@.in_point == in_point.0,
            r@.out_point == out_point.0,
            r@.is_ordered(),
    {
        TimeRemapper {
            cuts: sort_by_time(&cuts),
            speed_ramps: sort_by_time(&speed_ramps),
            in_point,
            out_point,
        }
    }

    /// A remapper without cuts and ramps.
    pub fn identity(in_point: Timestamp, out_point: Timestamp) -> (r: TimeRemapper)
        ensures
            r@.cuts == Seq::<TimeRange>::empty(),
            r@.ramps == Seq::<SpeedRamp>::empty(),
            r@.in_point == in_point.0,
            r@.out_point == out_point.0,
            r@.is_ordered(),
    {
        TimeRemapper { cuts: Vec::new(), speed_ramps: Vec::new(), in_point, out_point }
    }

    /// The end of the first cut that holds `t`, if any does.
    fn cut_end_at(&self, t: u64) -> (end: Option<u64>)
        ensures
            end is Some <==> in_cut(self@.cuts, t as int),
            end is Some ==> end->0 == first_cut_end(self@.cuts, t as int) && t < end->0,
    {
        let n: usize = self.cuts.len();
        let mut i: usize = 0;
        assert(self.cuts@.subrange(0, n as int) == self.cuts@);
        while i < n
            invariant
                i <= n,
                n == self.cuts@.len(),
                first_cut_end(self.cuts@, t as int) == first_cut_end(
                    self.cuts@.subrange(i as int, n as int),
                    t as int,
                ),
            decreases n - i,
        {
            let ghost tail = self.cuts@.subrange(i as int, n as int);
            assert(tail.first() == self.cuts@[i as int]);
            assert(tail.drop_first() == self.cuts@.subrange(i + 1, n as int));
            if self.cuts[i].contains(Timestamp(t)) {
                proof {
                    lemma_first_cut_end(self.cuts@, t as int);
                }
                return Some(self.cuts[i].end.0);
            }
            i += 1;
        }
        proof {
            lemma_first_cut_end(self.cuts@, t as int);
        }
        None
    }

    /// Whether a cut holds the source time.
    pub fn is_cut(&self, source_time: Timestamp) -> (b: bool)
        ensures
            b == self@.is_cut(source_time.0 as int),
    {
        self.cut_end_at(source_time.0).is_some()
    }

    /// The playback speed at a source time, in `SPEED_UNIT`-ths: that of the
    /// first ramp that holds it, and `SPEED_UNIT` where none does.
    pub fn speed_at(&self, source_time: Timestamp) -> (speed: u32)
        ensures
            speed == self@.speed_at(source_time.0 as int),
            SPEED_MIN <= speed <= SPEED_MAX,
    {
        let n: usize = self.speed_ramps.len();
        let mut i: usize = 0;
        assert(self.speed_ramps@.subrange(0, n as int) == self.speed_ramps@);
        proof {
            lemma_speed_of_range(self.speed_ramps@, source_time.0 as int);
        }
        while i < n
            invariant
                i <= n,
                n == self.speed_ramps@.len(),
                speed_of(self.speed_ramps@, source_time.0 as int) == speed_of(
                    self.speed_ramps@.subrange(i as int, n as int),
                    source_time.0 as int,
                ),
            decreases n - i,
        {
            let ghost tail = self.speed_ramps@.subrange(i as int, n as int);
            assert(tail.first() == self.speed_ramps@[i as int]);
            assert(tail.drop_first() == self.speed_ramps@.subrange(i + 1, n as int));
            if self.speed_ramps[i].range.contains(source_time) {
                return clamp_ramp_speed(self.speed_ramps[i].speed);
            }
            i += 1;
        }
        SPEED_UNIT
    }

    /// The end of the segment that starts at `source_time`.
    fn find_next_boundary(&self, source_time: u64) -> (next: u64)
        requires
            source_time < self@.out_point,
        ensures
            next == next_boundary(self@.cuts, self@.ramps, self@.out_point, source_time as int),
            source_time < next <= self@.out_point,
    {
        let mut next: u64 = self.out_point.0;
        let n: usize = self.cuts.len();
        let mut i: usize = 0;
        assert(self.cuts@.subrange(0, 0) =~= Seq::<TimeRange>::empty());
        while i < n
            invariant
                i <= n,
                n == self.cuts@.len(),
                next == nearest_start(
                    self.cuts@.subrange(0, i as int),
                    source_time as int,
                    self.out_point.0 as int,
                ),
            decreases n - i,
        {
            let ghost upto = self.cuts@.subrange(0, i + 1);
            assert(upto.last() == self.cuts@[i as int]);
            assert(upto.drop_last() == self.cuts@.subrange(0, i as int));
            let cut_start: u64 = self.cuts[i].start.0;
            if cut_start > source_time && cut_start < next {
                next = cut_start;
            }
            i += 1;
        }
        assert(self.cuts@.subrange(0, n as int) == self.cuts@);
        let ghost bound = next as int;
        let m: usize = self.speed_ramps.len();
        let mut k: usize = 0;
        assert(self.speed_ramps@.subrange(0, 0) =~= Seq::<SpeedRamp>::empty());
        while k < m
            invariant
                k <= m,
                m == self.speed_ramps@.len(),
                next == nearest_edge(
                    self.speed_ramps@.subrange(0, k as int),
                    source_time as int,
                    bound,
                ),
            decreases m - k,
        {
            let ghost upto = self.speed_ramps@.subrange(0, k + 1);
            assert(upto.last() == self.speed_ramps@[k as int]);
            assert(upto.drop_last() == self.speed_ramps@.subrange(0, k as int));
            let ramp_start: u64 = self.speed_ramps[k].range.start.0;
            let ramp_end: u64 = self.speed_ramps[k].range.end.0;
            if ramp_start > source_time && ramp_start < next {
                next = ramp_start;
            }
            if ramp_end > source_time && ramp_end < next {
                next = ramp_end;
            }
            k += 1;
        }
        assert(self.speed_ramps@.subrange(0, m as int) == self.speed_ramps@);
        proof {
            lemma_next_boundary(
                self@.cuts,
                self@.ramps,
                self@.out_point,
                source_time as int,
            );
        }
        next
    }

    /// The first instant at or after `ts` that no cut holds, and the out
    /// point if that lies beyond it.
    fn skip_cuts_forward(&self, ts: Timestamp) -> (r: Timestamp)
        ensures
            r.0 == resume_at(self@.cuts, self@.out_point, ts.0 as int),
    {
        let mut current: u64 = ts.0;
        loop
            invariant
                clear_from(self.cuts@, current as int) == clear_from(self.cuts@, ts.0 as int),
            ensures
                clear_from(self.cuts@, ts.0 as int) == current,
            decreases u64::MAX - current,
        {
            match self.cut_end_at(current) {
                Some(end) => {
                    current = end;
                },
                None => {
                    break ;
                },
            }
        }
        if current < self.out_point.0 {
            Timestamp(current)
        } else {
            self.out_point
        }
    }

    /// The length of the export: what is left of the source between the trim
    /// points once the cuts are removed and the ramps applied. A length beyond
    /// the largest timestamp is given as the largest timestamp.
    pub fn export_duration(&self) -> (d: Timestamp)
        ensures
            d.0 == saturated(self@.export_length()),
    {
        let out: u64 = self.out_point.0;
        let mut total: u64 = 0;
        let mut source_time: u64 = self.in_point.0;
        let ghost mut sum: int = 0;
        while source_time < out
            invariant
                out == self.out_point.0,
                0 <= sum,
                total == saturated(sum),
                self@.export_length() == sum + export_from(
                    self@.cuts,
                    self@.ramps,
                    out as int,
                    source_time as int,
                ),
            decreases out - source_time,
        {
            match self.cut_end_at(source_time) {
                Some(end) => {
                    source_time = if end < out {
                        end
                    } else {
                        out
                    };
                },
                None => {
                    let next: u64 = self.find_next_boundary(source_time);
                    let speed: u32 = self.speed_at(Timestamp(source_time));
                    let segment: u128 = segment_export_length(next - source_time, speed);
                    total = if segment > (u64::MAX - total) as u128 {
                        u64::MAX
                    } else {
                        total + segment as u64
                    };
                    proof {
                        sum = sum + segment as int;
                    }
                    source_time = next;
                },
            }
        }
        Timestamp(total)
    }

    /// The source time that is shown at `export_time`. Time zero shows the
    /// first source instant that no cut holds; a time at or beyond the export
    /// duration shows the out point.
    pub fn to_source_time(&self, export_time: Timestamp) -> (s: Timestamp)
        ensures
            s.0 == self@.source_time(export_time.0 as int),
    {
        let out: u64 = self.out_point.0;
        let mut source_time: u64 = self.skip_cuts_forward(self.in_point).0;
        let mut remaining: u64 = export_time.0;
        while remaining > 0 && source_time < out
            invariant
                out == self.out_point.0,
                source_time <= out,
                self@.source_time(export_time.0 as int) == source_from(
                    self@.cuts,
                    self@.ramps,
                    out as int,
                    source_time as int,
                    remaining as int,
                ),
            decreases out - source_time, remaining,
        {
            let next: u64 = self.find_next_boundary(source_time);
            let speed: u32 = self.speed_at(Timestamp(source_time));
            let segment: u128 = segment_export_length(next - source_time, speed);
            if (remaining as u128) < segment {
                proof {
                    lemma_source_length_within(
                        remaining as int,
                        (next - source_time) as int,
                        speed as int,
                    );
                }
                let offset: u128 = segment_source_length(remaining, speed);
                source_time = source_time + offset as u64;
                remaining = 0;
            } else {
                remaining = remaining - segment as u64;
                source_time = self.skip_cuts_forward(Timestamp(next)).0;
                proof {
                    lemma_clear_from(self@.cuts, next as int);
                }
            }
        }
        Timestamp(source_time)
    }

    /// The start of the export in source time.
    pub fn in_point(&self) -> (t: Timestamp)
        ensures
            t.0 == self@.in_point,
    {
        self.in_point
    }

    /// The end of the export in source time.
    pub fn out_point(&self) -> (t: Timestamp)
        ensures
            t.0 == self@.out_point,
    {
        self.out_point
    }

    /// The cuts, in order of their starts.
    pub fn cuts(&self) -> (c: &[TimeRange])
        ensures
            c@ == self@.cuts,
            is_ordered(c@),
    {
        proof {
            use_type_invariant(self);
        }
        self.cuts.as_slice()
    }

    /// The ramps, in order of their starts.
    pub fn speed_ramps(&self) -> (r: &[SpeedRamp])
        ensures
            r@ == self@.ramps,
            is_ordered(r@),
    {
        proof {
            use_type_invariant(self);
        }
        self.speed_ramps.as_slice()
    }
}

/// A cut as a host writes it.
#[derive(Debug, Clone, Copy, PartialEq, Eq, Structural)]
pub struct TimeRangeConfig {
    /// Start in microseconds.
    pub start_us: u64,
    /// End in microseconds.
    pub end_us: u64,
}

impl TimeRangeConfig {
    /// The range that the entry stands for.
    pub open spec fn range(self) -> TimeRange {
        TimeRange { start: Timestamp(self.start_us), end: Timestamp(self.end_us) }
    }
}

/// A speed ramp as a host writes it.
#[derive(Debug, Clone, Copy, PartialEq, Eq, Structural)]
pub struct SpeedRampConfig {
    /// Start in microseconds.
    pub start_us: u64,
    /// End in microseconds.
    pub end_us: u64,
    /// Speed in `SPEED_UNIT`-ths.
    pub speed: u32,
}

impl SpeedRampConfig {
    /// The ramp that the entry stands for, its speed brought within the limits.
    pub open spec fn ramp(self) -> SpeedRamp {
        SpeedRamp {
            range: TimeRange { start: Timestamp(self.start_us), end: Timestamp(self.end_us) },
            speed: clamp_speed(self.speed as int) as u32,
        }
    }
}

/// The configuration of a remapper as a host writes it.
#[derive(Debug, Clone)]
pub struct TimeRemapperConfig {
    /// The stretches that are removed from the export.
    pub cuts: Vec<TimeRangeConfig>,
    /// The stretches that are played at another speed.
    pub speed_ramps: Vec<SpeedRampConfig>,
    /// Start of the export in microseconds of source time.
    pub in_point_us: u64,
    /// End of the export in microseconds of source time.
    pub out_point_us: u64,
}

/// The cuts that the entries stand for, in the order of the entries.
pub open spec fn ranges_of(entries: Seq<TimeRangeConfig>) -> Seq<TimeRange> {
    Seq::new(entries.len(), |i: int| entries[i].range())
}

/// The ramps that the entries stand for, in the order of the entries.
pub open spec fn ramps_of(entries: Seq<SpeedRampConfig>) -> Seq<SpeedRamp> {
    Seq::new(entries.len(), |i: int| entries[i].ramp())
}

/// A remapper that takes and gives plain numbers of microseconds, as a host
/// that knows nothing of the library's types needs it.
#[derive(Debug, Clone)]
pub struct WasmTimeRemapper {
    inner: TimeRemapper,
}

impl View for WasmTimeRemapper {
    type V = Timeline;

    closed spec fn view(&self) -> Timeline {
        self.inner@
    }
}

impl WasmTimeRemapper {
    /// The remapper that a configuration describes: its cuts and ramps in
    /// order of their starts, each speed brought within the limits.
    pub fn new(config: TimeRemapperConfig) -> (r: WasmTimeRemapper)
        ensures
            r@.cuts == ordered(ranges_of(config.cuts@)),
            r@.ramps == ordered(ramps_of(config.speed_ramps@)),
            r@.in_point == config.in_point_us,
            r@.out_point == config.out_point_us,
    {
        let mut cuts: Vec<TimeRange> = Vec::with_capacity(config.cuts.len());
        let mut i: usize = 0;
        while i < config.cuts.len()
            invariant
                i <= config.cuts.len(),
                cuts@.len() == i,
                forall|k: int| 0 <= k < i ==> cuts@[k] == (#[trigger] config.cuts@[k]).range(),
            decreases config.cuts.len() - i,
        {
            let entry: TimeRangeConfig = config.cuts[i];
            cuts.push(
                TimeRange::new(
                    Timestamp::from_micros(entry.start_us),
                    Timestamp::from_micros(entry.end_us),
                ),
            );
            i += 1;
        }
        let mut speed_ramps: Vec<SpeedRamp> = Vec::with_capacity(config.speed_ramps.len());
        let mut k: usize = 0;
        while k < config.speed_ramps.len()
            invariant
                k <= config.speed_ramps.len(),
                speed_ramps@.len() == k,
                forall|j: int|
                    0 <= j < k ==> speed_ramps@[j] == (#[trigger] config.speed_ramps@[j]).ramp(),
            decreases config.speed_ramps.len() - k,
        {
            let entry: SpeedRampConfig = config.speed_ramps[k];
            speed_ramps.push(
                SpeedRamp::new(
                    TimeRange::new(
                        Timestamp::from_micros(entry.start_us),
                        Timestamp::from_micros(entry.end_us),
                    ),
                    entry.speed,
                ),
            );
            k += 1;
        }
        assert(cuts@ =~= ranges_of(config.cuts@));
        assert(speed_ramps@ =~= ramps_of(config.speed_ramps@));
        WasmTimeRemapper {
            inner: TimeRemapper::new(
                cuts,
                speed_ramps,
                Timestamp::from_micros(config.in_point_us),
                Timestamp::from_micros(config.out_point_us),
            ),
        }
    }

    /// A remapper without cuts and ramps.
    pub fn identity(in_point_us: u64, out_point_us: u64) -> (r: WasmTimeRemapper)
        ensures
            r@.cuts == Seq::<TimeRange>::empty(),
            r@.ramps == Seq::<SpeedRamp>::empty(),
            r@.in_point == in_point_us,
            r@.out_point == out_point_us,
    {
        WasmTimeRemapper {
            inner: TimeRemapper::identity(
                Timestamp::from_micros(in_point_us),
                Timestamp::from_micros(out_point_us),
            ),
        }
    }

    /// The source time, in microseconds, that is shown at an export time.
    pub fn to_source_time(&self, export_time_us: u64) -> (source_us: u64)
        ensures
            source_us == self@.source_time(export_time_us as int),
    {
        self.inner.to_source_time(Timestamp::from_micros(export_time_us)).as_micros()
    }

    /// The length of the export in microseconds.
    pub fn export_duration(&self) -> (d: u64)
        ensures
            d == saturated(self@.export_length()),
    {
        self.inner.export_duration().as_micros()
    }

    /// Whether a cut holds the source time.
    pub fn is_cut(&self, source_time_us: u64) -> (b: bool)
        ensures
            b == self@.is_cut(source_time_us as int),
    {
        self.inner.is_cut(Timestamp::from_micros(source_time_us))
    }

    /// The playback speed at a source time, in `SPEED_UNIT`-ths.
    pub fn speed_at(&self, source_time_us: u64) -> (speed: u32)
        ensures
            speed == self@.speed_at(source_time_us as int),
    {
        self.inner.speed_at(Timestamp::from_micros(source_time_us))
    }

    /// The start of the export, in microseconds of source time.
    pub fn in_point(&self) -> (t: u64)
        ensures
            t == self@.in_point,
    {
        self.inner.in_point().as_micros()
    }

    /// The end of the export, in microseconds of source time.
    pub fn out_point(&self) -> (t: u64)
        ensures
            t == self@.out_point,
    {
        self.inner.out_point().as_micros()
    }

    /// The configuration that describes this remapper: what `new` was given,
    /// with the cuts and ramps in order and the speeds within the limits.
    pub fn to_config(&self) -> (config: TimeRemapperConfig)
        ensures
            ranges_of(config.cuts@) == self@.cuts,
            config.speed_ramps@.len() == self@.ramps.len(),
            forall|i: int|
                0 <= i < self@.ramps.len() ==> {
                    &&& (#[trigger] config.speed_ramps@[i]).start_us == self@.ramps[i].range.start.0
                    &&& config.speed_ramps@[i].end_us == self@.ramps[i].range.end.0
                    &&& config.speed_ramps@[i].speed == self@.ramps[i].speed
                },
            config.in_point_us == self@.in_point,
            config.out_point_us == self@.out_point,
    {
        let ranges: &[TimeRange] = self.inner.cuts();
        let mut cuts: Vec<TimeRangeConfig> = Vec::with_capacity(ranges.len());
        let mut i: usize = 0;
        while i < ranges.len()
            invariant
                i <= ranges.len(),
                cuts@.len() == i,
                forall|k: int| 0 <= k < i ==> (#[trigger] cuts@[k]).range() == ranges@[k],
            decreases ranges.len() - i,
        {
            let range: TimeRange = ranges[i];
            cuts.push(
                TimeRangeConfig {
                    start_us: range.start.as_micros(),
                    end_us: range.end.as_micros(),
                },
            );
            i += 1;
        }
        let ramps: &[SpeedRamp] = self.inner.speed_ramps();
        let mut speed_ramps: Vec<SpeedRampConfig> = Vec::with_capacity(ramps.len());
        let mut k: usize = 0;
        while k < ramps.len()
            invariant
                k <= ramps.len(),
                speed_ramps@.len() == k,
                forall|j: int|
                    0 <= j < k ==> {
                        &&& (#[trigger] speed_ramps@[j]).start_us == ramps@[j].range.start.0
                        &&& speed_ramps@[j].end_us == ramps@[j].range.end.0
                        &&& speed_ramps@[j].speed == ramps@[j].speed
                    },
            decreases ramps.len() - k,
        {
            let ramp: SpeedRamp = ramps[k];
            speed_ramps.push(
                SpeedRampConfig {
                    start_us: ramp.range.start.as_micros(),
                    end_us: ramp.range.end.as_micros(),
                    speed: ramp.speed,
                },
            );
            k += 1;
        }
        assert(ranges_of(cuts@) =~= ranges@);
        TimeRemapperConfig {
            cuts,
            speed_ramps,
            in_point_us: self.inner.in_point().as_micros(),
            out_point_us: self.inner.out_point().as_micros(),
        }
    }
}

} // verus!
