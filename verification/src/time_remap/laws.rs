//! What holds of every remapper: the mapping never runs backwards, it stays
//! out of the cuts, it ends at the out point, and the export duration is the
//! sum of what the pieces of the source take.

use vstd::prelude::*;
use crate::time_remap::{
    export_from, export_length, first_cut_end, in_cut, is_edge, lemma_clear_from,
    lemma_clear_from_unique, lemma_first_cut_end, lemma_first_cut_end_first, lemma_next_boundary,
    lemma_next_boundary_unique, lemma_source_length_within, lemma_speed_of_first,
    lemma_speed_of_range, next_boundary, resume_at, source_from, source_length, SPEED_MAX,
    SPEED_MIN, speed_of, SPEED_UNIT, SpeedRamp, Timeline, TimeRange, TimeRemapper,
};
use crate::types::Timestamp;

verus! {

/// A segment that starts outside every cut stays outside every cut.
pub proof fn lemma_segment_clear(
    cuts: Seq<TimeRange>,
    ramps: Seq<SpeedRamp>,
    out: int,
    t: int,
    p: int,
)
    requires
        t < out,
        !in_cut(cuts, t),
        t <= p < next_boundary(cuts, ramps, out, t),
    ensures
        !in_cut(cuts, p),
{
    lemma_next_boundary(cuts, ramps, out, t);
    if in_cut(cuts, p) {
        let i = choose|i: int| 0 <= i < cuts.len() && #[trigger] cuts[i].holds(p);
        if cuts[i].start.0 <= t {
            assert(cuts[i].holds(t));
        }
    }
}

/// A cut that holds the end of a segment which starts outside every cut
/// starts at that end.
pub proof fn lemma_cut_at_boundary(
    cuts: Seq<TimeRange>,
    ramps: Seq<SpeedRamp>,
    out: int,
    t: int,
    i: int,
)
    requires
        t < out,
        !in_cut(cuts, t),
        0 <= i < cuts.len(),
        cuts[i].holds(next_boundary(cuts, ramps, out, t)),
    ensures
        cuts[i].start.0 == next_boundary(cuts, ramps, out, t),
{
    lemma_next_boundary(cuts, ramps, out, t);
    if cuts[i].start.0 <= t {
        assert(cuts[i].holds(t));
    }
}

/// Two instants between which no ramp starts or ends have the same speed.
pub proof fn lemma_speed_between_edges(ramps: Seq<SpeedRamp>, t: int, p: int, b: int)
    requires
        t <= p < b,
        forall|i: int|
            0 <= i < ramps.len() && t < (#[trigger] ramps[i]).range.start.0 ==> b
                <= ramps[i].range.start.0,
        forall|i: int|
            0 <= i < ramps.len() && t < (#[trigger] ramps[i]).range.end.0 ==> b
                <= ramps[i].range.end.0,
    ensures
        speed_of(ramps, p) == speed_of(ramps, t),
    decreases ramps.len(),
{
    if ramps.len() > 0 {
        let rest = ramps.drop_first();
        let first = ramps[0];
        assert(first.range.holds(p) == first.range.holds(t));
        assert forall|i: int| 0 <= i < rest.len() && t < (#[trigger] rest[i]).range.start.0
            implies b <= rest[i].range.start.0 by {
            assert(rest[i] == ramps[i + 1]);
        }
        assert forall|i: int| 0 <= i < rest.len() && t < (#[trigger] rest[i]).range.end.0 implies b
            <= rest[i].range.end.0 by {
            assert(rest[i] == ramps[i + 1]);
        }
        lemma_speed_between_edges(rest, t, p, b);
    }
}

/// The speed is the same all along a segment.
pub proof fn lemma_segment_speed(
    cuts: Seq<TimeRange>,
    ramps: Seq<SpeedRamp>,
    out: int,
    t: int,
    p: int,
)
    requires
        t < out,
        t <= p < next_boundary(cuts, ramps, out, t),
    ensures
        speed_of(ramps, p) == speed_of(ramps, t),
{
    lemma_next_boundary(cuts, ramps, out, t);
    lemma_speed_between_edges(ramps, t, p, next_boundary(cuts, ramps, out, t));
}

/// A longer export time covers no less source time.
pub proof fn lemma_source_length_monotonic(a: int, b: int, speed: int)
    requires
        0 <= a <= b,
        0 < speed,
    ensures
        source_length(a, speed) <= source_length(b, speed),
{
    assert(0 <= a * speed <= b * speed) by (nonlinear_arith)
        requires
            0 <= a <= b,
            0 < speed,
    ;
    crate::fixed::lemma_round_div_monotonic(a * speed, b * speed, SPEED_UNIT as int);
}

/// The export time is never negative.
pub proof fn lemma_export_from_nonnegative(
    cuts: Seq<TimeRange>,
    ramps: Seq<SpeedRamp>,
    out: int,
    t: int,
)
    ensures
        0 <= export_from(cuts, ramps, out, t),
    decreases out - t,
{
    if t < out {
        lemma_first_cut_end(cuts, t);
        if in_cut(cuts, t) {
            let e = first_cut_end(cuts, t);
            lemma_export_from_nonnegative(
                cuts,
                ramps,
                out,
                if e < out {
                    e
                } else {
                    out
                },
            );
        } else {
            lemma_next_boundary(cuts, ramps, out, t);
            let b = next_boundary(cuts, ramps, out, t);
            lemma_speed_of_range(ramps, t);
            assert(0 <= (b - t) * SPEED_UNIT) by (nonlinear_arith)
                requires
                    0 <= b - t,
            ;
            crate::fixed::lemma_round_div_bounds((b - t) * SPEED_UNIT, speed_of(ramps, t));
            lemma_export_from_nonnegative(cuts, ramps, out, b);
        }
    }
}

/// A source walk stays between its start and `out`.
pub proof fn lemma_source_from_bounds(
    cuts: Seq<TimeRange>,
    ramps: Seq<SpeedRamp>,
    out: int,
    t: int,
    rest: int,
)
    requires
        t <= out,
    ensures
        t <= source_from(cuts, ramps, out, t, rest) <= out,
    decreases out - t,
{
    if t < out && rest > 0 {
        lemma_next_boundary(cuts, ramps, out, t);
        let b = next_boundary(cuts, ramps, out, t);
        let speed = speed_of(ramps, t);
        lemma_speed_of_range(ramps, t);
        let len = export_length(b - t, speed);
        if rest < len {
            lemma_source_length_within(rest, b - t, speed);
        } else {
            lemma_clear_from(cuts, b);
            lemma_source_from_bounds(cuts, ramps, out, resume_at(cuts, out, b), rest - len);
        }
    }
}

/// A later export time is mapped to no earlier source time.
pub proof fn lemma_source_from_monotonic(
    cuts: Seq<TimeRange>,
    ramps: Seq<SpeedRamp>,
    out: int,
    t: int,
    a: int,
    b: int,
)
    requires
        t <= out,
        a <= b,
    ensures
        source_from(cuts, ramps, out, t, a) <= source_from(cuts, ramps, out, t, b),
    decreases out - t,
{
    lemma_source_from_bounds(cuts, ramps, out, t, b);
    if t < out && a > 0 {
        lemma_next_boundary(cuts, ramps, out, t);
        let end = next_boundary(cuts, ramps, out, t);
        let speed = speed_of(ramps, t);
        lemma_speed_of_range(ramps, t);
        let len = export_length(end - t, speed);
        let next = resume_at(cuts, out, end);
        lemma_clear_from(cuts, end);
        if b < len {
            lemma_source_length_monotonic(a, b, speed);
        } else if a < len {
            lemma_source_length_within(a, end - t, speed);
            lemma_source_from_bounds(cuts, ramps, out, next, b - len);
        } else {
            lemma_source_from_monotonic(cuts, ramps, out, next, a - len, b - len);
        }
    }
}

/// A source walk that starts outside every cut ends outside every cut, with
/// two exceptions: it may end at `out`, and it may end where a cut starts if
/// the stretch before that is slowed, because the last step is rounded.
pub proof fn lemma_source_from_clear(
    cuts: Seq<TimeRange>,
    ramps: Seq<SpeedRamp>,
    out: int,
    t: int,
    rest: int,
)
    requires
        t <= out,
        t == out || !in_cut(cuts, t),
    ensures
        ({
            let s = source_from(cuts, ramps, out, t, rest);
            in_cut(cuts, s) ==> s == out || (t < s && speed_of(ramps, s - 1) < SPEED_UNIT
                && !in_cut(cuts, s - 1) && forall|i: int|
                0 <= i < cuts.len() && #[trigger] cuts[i].holds(s) ==> cuts[i].start.0 == s)
        }),
    decreases out - t,
{
    let s = source_from(cuts, ramps, out, t, rest);
    if t < out && rest > 0 {
        lemma_next_boundary(cuts, ramps, out, t);
        let end = next_boundary(cuts, ramps, out, t);
        let speed = speed_of(ramps, t);
        lemma_speed_of_range(ramps, t);
        let len = export_length(end - t, speed);
        if rest < len {
            lemma_source_length_within(rest, end - t, speed);
            if s < end {
                lemma_segment_clear(cuts, ramps, out, t, s);
            } else {
                lemma_segment_speed(cuts, ramps, out, t, s - 1);
                lemma_segment_clear(cuts, ramps, out, t, s - 1);
                assert forall|i: int| 0 <= i < cuts.len() && #[trigger] cuts[i].holds(s)
                    implies cuts[i].start.0 == s by {
                    lemma_cut_at_boundary(cuts, ramps, out, t, i);
                }
            }
        } else {
            let next = resume_at(cuts, out, end);
            lemma_clear_from(cuts, end);
            lemma_source_from_clear(cuts, ramps, out, next, rest - len);
        }
    }
}

/// Cut material adds nothing: the export time from an instant on is the
/// export time from where a walk resumes at or after that instant.
pub proof fn lemma_export_from_resume(cuts: Seq<TimeRange>, ramps: Seq<SpeedRamp>, out: int, t: int)
    ensures
        export_from(cuts, ramps, out, t) == export_from(cuts, ramps, out, resume_at(cuts, out, t)),
    decreases u64::MAX - t,
{
    lemma_first_cut_end(cuts, t);
    lemma_clear_from(cuts, t);
    if t < out && in_cut(cuts, t) {
        let e = first_cut_end(cuts, t);
        lemma_clear_from(cuts, e);
        if e < out {
            lemma_export_from_resume(cuts, ramps, out, e);
        }
    }
}

/// An export time beyond what is left of the export leads to the out point.
pub proof fn lemma_source_from_past_end(
    cuts: Seq<TimeRange>,
    ramps: Seq<SpeedRamp>,
    out: int,
    t: int,
    rest: int,
)
    requires
        t <= out,
        t == out || !in_cut(cuts, t),
        export_from(cuts, ramps, out, t) < rest,
    ensures
        source_from(cuts, ramps, out, t, rest) == out,
    decreases out - t,
{
    if t < out {
        lemma_next_boundary(cuts, ramps, out, t);
        let end = next_boundary(cuts, ramps, out, t);
        let len = export_length(end - t, speed_of(ramps, t));
        lemma_export_from_nonnegative(cuts, ramps, out, end);
        lemma_export_from_nonnegative(cuts, ramps, out, t);
        lemma_export_from_resume(cuts, ramps, out, end);
        lemma_clear_from(cuts, end);
        lemma_source_from_past_end(cuts, ramps, out, resume_at(cuts, out, end), rest - len);
    }
}

/// Monotonic remap: of two export times, the later one is never mapped to an
/// earlier source time.
pub proof fn lemma_remap_monotonic(r: TimeRemapper, e1: Timestamp, e2: Timestamp)
    requires
        e1.0 <= e2.0,
    ensures
        r@.source_time(e1.0 as int) <= r@.source_time(e2.0 as int),
{
    let tl = r@;
    lemma_source_from_monotonic(
        tl.cuts,
        tl.ramps,
        tl.out_point,
        tl.first_source(),
        e1.0 as int,
        e2.0 as int,
    );
}

/// Every source time that an export time is mapped to lies between the first
/// source instant of the export and the out point.
pub proof fn lemma_remap_within_trim(r: TimeRemapper, e: Timestamp)
    ensures
        r@.first_source() <= r@.source_time(e.0 as int) <= r@.out_point,
{
    let tl = r@;
    lemma_source_from_bounds(tl.cuts, tl.ramps, tl.out_point, tl.first_source(), e.0 as int);
}

/// Where no cut holds the in point, the export starts at the in point.
pub proof fn lemma_first_source_uncut(r: TimeRemapper)
    requires
        r@.in_point <= r@.out_point,
        !r@.is_cut(r@.in_point),
    ensures
        r@.first_source() == r@.in_point,
{
    lemma_clear_from_unique(r@.cuts, r@.in_point, r@.in_point);
}

/// Export time zero shows the first source instant of the export.
pub proof fn lemma_remap_start(r: TimeRemapper)
    ensures
        r@.source_time(0) == r@.first_source(),
{
}

/// Every export time beyond the export duration shows the out point.
pub proof fn lemma_remap_past_end(r: TimeRemapper, e: Timestamp)
    requires
        r@.export_length() < e.0,
    ensures
        r@.source_time(e.0 as int) == r@.out_point,
{
    let tl = r@;
    lemma_clear_from(tl.cuts, tl.in_point);
    lemma_export_from_resume(tl.cuts, tl.ramps, tl.out_point, tl.in_point);
    lemma_source_from_past_end(tl.cuts, tl.ramps, tl.out_point, tl.first_source(), e.0 as int);
}

/// No export time is mapped into the inside of a cut. Where a cut holds the
/// source time at all, the source time is the out point, or it is the first
/// instant of that cut and the instant just before it is outside every cut
/// and slowed.
pub proof fn lemma_remap_never_inside_cut(r: TimeRemapper, e: Timestamp, i: int)
    requires
        0 <= i < r@.cuts.len(),
        r@.cuts[i].holds(r@.source_time(e.0 as int)),
    ensures
        r@.source_time(e.0 as int) == r@.out_point || ({
            &&& r@.cuts[i].start.0 == r@.source_time(e.0 as int)
            &&& r@.first_source() < r@.source_time(e.0 as int)
            &&& !r@.is_cut(r@.source_time(e.0 as int) - 1)
            &&& r@.speed_at(r@.source_time(e.0 as int) - 1) < SPEED_UNIT
        }),
{
    let tl = r@;
    lemma_clear_from(tl.cuts, tl.in_point);
    lemma_source_from_clear(tl.cuts, tl.ramps, tl.out_point, tl.first_source(), e.0 as int);
}

/// Cut exclusion: no export time is mapped into a cut that overlaps the
/// trimmed source. This holds of a remapper in which no such cut reaches
/// across the out point and no slowed stretch of kept source runs up to the
/// start of a cut; in those two places the rounded walk can come to rest on
/// a cut.
pub proof fn lemma_cut_exclusion(r: TimeRemapper, e: Timestamp, i: int)
    requires
        forall|k: int|
            0 <= k < r@.cuts.len() && (#[trigger] r@.cuts[k]).start.0 < r@.out_point
                ==> !r@.cuts[k].holds(r@.out_point),
        forall|k: int|
            0 <= k < r@.cuts.len() && r@.in_point < (#[trigger] r@.cuts[k]).start.0
                < r@.out_point ==> SPEED_UNIT <= r@.speed_at(r@.cuts[k].start.0 - 1) || r@.is_cut(
                r@.cuts[k].start.0 - 1,
            ),
        0 <= i < r@.cuts.len(),
        r@.cuts[i].start.0 < r@.out_point,
        r@.in_point < r@.cuts[i].end.0,
    ensures
        !r@.cuts[i].holds(r@.source_time(e.0 as int)),
{
    let tl = r@;
    let s = tl.source_time(e.0 as int);
    if tl.cuts[i].holds(s) {
        lemma_remap_never_inside_cut(r, e, i);
        lemma_remap_within_trim(r, e);
        lemma_clear_from(tl.cuts, tl.in_point);
    }
}

/// Speed ramp duration: where one ramp covers the whole source from zero to
/// `d`, the export takes `d` divided by the ramp's speed, rounded.
pub proof fn lemma_single_ramp_duration(r: TimeRemapper, d: u64, speed: u32)
    requires
        SPEED_MIN <= speed <= SPEED_MAX,
        r@.cuts.len() == 0,
        r@.ramps.len() == 1,
        r@.ramps[0] == (SpeedRamp {
            range: TimeRange { start: Timestamp(0), end: Timestamp(d) },
            speed,
        }),
        r@.in_point == 0,
        r@.out_point == d,
    ensures
        r@.export_length() == export_length(d as int, speed as int),
{
    let tl = r@;
    assert(!in_cut(tl.cuts, 0));
    if d > 0 {
        assert(tl.ramps[0].range.end.0 == d);
        assert(is_edge(tl.cuts, tl.ramps, d as int));
        lemma_next_boundary_unique(tl.cuts, tl.ramps, d as int, 0, d as int);
        lemma_speed_of_first(tl.ramps, 0, 0);
        assert(export_from(tl.cuts, tl.ramps, d as int, d as int) == 0);
    } else {
        lemma_export_length_zero(speed as int);
    }
}

/// The time that `range` has in common with the stretch from `from` to `to`.
pub open spec fn overlap(range: TimeRange, from: int, to: int) -> int {
    let lo = if range.start.0 > from {
        range.start.0 as int
    } else {
        from
    };
    let hi = if range.end.0 < to {
        range.end.0 as int
    } else {
        to
    };
    if lo < hi {
        hi - lo
    } else {
        0
    }
}

/// One range ends before the other starts.
pub open spec fn apart(a: TimeRange, b: TimeRange) -> bool {
    a.end.0 <= b.start.0 || b.end.0 <= a.start.0
}

/// The sum of `f(0)`, `f(1)`, and so on up to `f(n - 1)`.
pub open spec fn sum_to(n: int, f: spec_fn(int) -> int) -> int
    decreases n,
{
    if n <= 0 {
        0
    } else {
        sum_to(n - 1, f) + f(n - 1)
    }
}

/// For each cut, the time that it takes away between `from` and the out point.
pub open spec fn cut_times(tl: Timeline, from: int) -> spec_fn(int) -> int {
    |i: int| overlap(tl.cuts[i], from, tl.out_point)
}

/// For each ramp, the source time that it covers between `from` and the out
/// point.
pub open spec fn ramp_times(tl: Timeline, from: int) -> spec_fn(int) -> int {
    |i: int| overlap(tl.ramps[i].range, from, tl.out_point)
}

/// For each ramp, the export time that its part between `from` and the out
/// point takes.
pub open spec fn ramp_exports(tl: Timeline, from: int) -> spec_fn(int) -> int {
    |i: int| export_length(overlap(tl.ramps[i].range, from, tl.out_point), tl.ramps[i].pace())
}

impl Timeline {
    /// No range ends before it starts, and of any two ranges, cuts and ramps
    /// alike, one ends before the other starts.
    pub open spec fn is_disjoint(self) -> bool {
        &&& forall|i: int|
            0 <= i < self.cuts.len() ==> (#[trigger] self.cuts[i]).start.0 <= self.cuts[i].end.0
        &&& forall|i: int|
            0 <= i < self.ramps.len() ==> (#[trigger] self.ramps[i]).range.start.0
                <= self.ramps[i].range.end.0
        &&& forall|i: int, k: int|
            0 <= i < self.cuts.len() && 0 <= k < self.cuts.len() && i != k ==> apart(
                #[trigger] self.cuts[i],
                #[trigger] self.cuts[k],
            )
        &&& forall|i: int, k: int|
            0 <= i < self.ramps.len() && 0 <= k < self.ramps.len() && i != k ==> apart(
                (#[trigger] self.ramps[i]).range,
                (#[trigger] self.ramps[k]).range,
            )
        &&& forall|i: int, k: int|
            0 <= i < self.cuts.len() && 0 <= k < self.ramps.len() ==> apart(
                #[trigger] self.cuts[i],
                (#[trigger] self.ramps[k]).range,
            )
    }

    /// The export time that is left from `from` on if the source is taken
    /// piece by piece: the source time up to the out point, less what the
    /// cuts take away, and with the export time of each ramp in place of the
    /// source time that it covers.
    pub open spec fn export_by_parts(self, from: int) -> int {
        (self.out_point - from) - sum_to(self.cuts.len() as int, cut_times(self, from)) - sum_to(
            self.ramps.len() as int,
            ramp_times(self, from),
        ) + sum_to(self.ramps.len() as int, ramp_exports(self, from))
    }
}

/// Two sums whose terms are alike but for one differ by the difference of
/// that one.
proof fn lemma_sum_shift(
    n: int,
    f: spec_fn(int) -> int,
    g: spec_fn(int) -> int,
    hit: int,
    d: int,
)
    requires
        forall|i: int| 0 <= i < n && i != hit ==> #[trigger] f(i) == g(i),
        0 <= hit < n ==> f(hit) == g(hit) + d,
    ensures
        sum_to(n, f) == sum_to(n, g) + (if 0 <= hit < n {
            d
        } else {
            0
        }),
    decreases n,
{
    if n > 0 {
        lemma_sum_shift(n - 1, f, g, hit, d);
    }
}

/// A sum of nothing but zeros is zero.
proof fn lemma_sum_zero(n: int, f: spec_fn(int) -> int)
    requires
        forall|i: int| 0 <= i < n ==> #[trigger] f(i) == 0,
    ensures
        sum_to(n, f) == 0,
    decreases n,
{
    if n > 0 {
        lemma_sum_zero(n - 1, f);
    }
}

/// No source time takes no export time.
proof fn lemma_export_length_zero(speed: int)
    requires
        0 < speed,
    ensures
        export_length(0, speed) == 0,
{
    assert(export_length(0, speed) == 0) by (nonlinear_arith)
        requires
            0 < speed,
    ;
}

/// At normal speed the export time is the source time.
proof fn lemma_export_length_normal(len: int)
    requires
        0 <= len,
    ensures
        export_length(len, SPEED_UNIT as int) == len,
{
    crate::fixed::lemma_round_div_exact(len, SPEED_UNIT as int);
}

/// A segment that starts in a ramp, with everything disjoint, ends where the
/// ramp ends, or at the out point if that comes first.
proof fn lemma_boundary_in_ramp(tl: Timeline, p: int, hit: int)
    requires
        tl.is_disjoint(),
        p < tl.out_point,
        0 <= hit < tl.ramps.len(),
        tl.ramps[hit].range.holds(p),
    ensures
        next_boundary(tl.cuts, tl.ramps, tl.out_point, p) == (if tl.ramps[hit].range.end.0
            < tl.out_point {
            tl.ramps[hit].range.end.0 as int
        } else {
            tl.out_point
        }),
{
    let out = tl.out_point;
    let b = next_boundary(tl.cuts, tl.ramps, out, p);
    let end = tl.ramps[hit].range.end.0 as int;
    lemma_next_boundary(tl.cuts, tl.ramps, out, p);
    assert(b <= end);
    if b < end && b < out {
        assert(is_edge(tl.cuts, tl.ramps, b));
        if exists|i: int| 0 <= i < tl.cuts.len() && #[trigger] tl.cuts[i].start.0 == b {
            let i = choose|i: int| 0 <= i < tl.cuts.len() && #[trigger] tl.cuts[i].start.0 == b;
            assert(apart(tl.cuts[i], tl.ramps[hit].range));
        } else if exists|i: int|
            0 <= i < tl.ramps.len() && #[trigger] tl.ramps[i].range.start.0 == b {
            let i = choose|i: int|
                0 <= i < tl.ramps.len() && #[trigger] tl.ramps[i].range.start.0 == b;
            assert(i != hit);
            assert(apart(tl.ramps[i].range, tl.ramps[hit].range));
        } else {
            let i = choose|i: int|
                0 <= i < tl.ramps.len() && #[trigger] tl.ramps[i].range.end.0 == b;
            assert(i != hit);
            assert(apart(tl.ramps[i].range, tl.ramps[hit].range));
        }
    }
}

/// With disjoint cuts and ramps, the export time from any instant on is what
/// taking the source piece by piece gives.
proof fn lemma_export_from_by_parts(tl: Timeline, p: int)
    requires
        tl.is_disjoint(),
        p <= tl.out_point,
    ensures
        export_from(tl.cuts, tl.ramps, tl.out_point, p) == tl.export_by_parts(p),
    decreases tl.out_point - p,
{
    let out = tl.out_point;
    let nc = tl.cuts.len() as int;
    let nr = tl.ramps.len() as int;
    if p >= out {
        assert forall|i: int| 0 <= i < nc implies #[trigger] cut_times(tl, p)(i) == 0 by {}
        assert forall|i: int| 0 <= i < nr implies #[trigger] ramp_times(tl, p)(i) == 0 by {}
        assert forall|i: int| 0 <= i < nr implies #[trigger] ramp_exports(tl, p)(i) == 0 by {
            lemma_export_length_zero(tl.ramps[i].pace());
        }
        lemma_sum_zero(nc, cut_times(tl, p));
        lemma_sum_zero(nr, ramp_times(tl, p));
        lemma_sum_zero(nr, ramp_exports(tl, p));
    } else if in_cut(tl.cuts, p) {
        let hit = choose|i: int| 0 <= i < tl.cuts.len() && #[trigger] tl.cuts[i].holds(p);
        assert forall|k: int| 0 <= k < hit implies !(#[trigger] tl.cuts[k]).holds(p) by {
            assert(apart(tl.cuts[k], tl.cuts[hit]));
        }
        lemma_first_cut_end_first(tl.cuts, p, hit);
        let e = first_cut_end(tl.cuts, p);
        let q = if e < out {
            e
        } else {
            out
        };
        lemma_export_from_by_parts(tl, q);
        assert forall|i: int| 0 <= i < nc && i != hit implies #[trigger] cut_times(tl, p)(i)
            == cut_times(tl, q)(i) by {
            assert(apart(tl.cuts[i], tl.cuts[hit]));
        }
        assert(cut_times(tl, p)(hit) == cut_times(tl, q)(hit) + (q - p));
        lemma_sum_shift(nc, cut_times(tl, p), cut_times(tl, q), hit, q - p);
        assert forall|i: int| 0 <= i < nr implies #[trigger] ramp_times(tl, p)(i) == ramp_times(
            tl,
            q,
        )(i) by {
            assert(apart(tl.cuts[hit], tl.ramps[i].range));
        }
        assert forall|i: int| 0 <= i < nr implies #[trigger] ramp_exports(tl, p)(i)
            == ramp_exports(tl, q)(i) by {
            assert(apart(tl.cuts[hit], tl.ramps[i].range));
        }
        lemma_sum_shift(nr, ramp_times(tl, p), ramp_times(tl, q), -1, 0);
        lemma_sum_shift(nr, ramp_exports(tl, p), ramp_exports(tl, q), -1, 0);
    } else {
        lemma_next_boundary(tl.cuts, tl.ramps, out, p);
        let b = next_boundary(tl.cuts, tl.ramps, out, p);
        lemma_export_from_by_parts(tl, b);
        if exists|j: int| 0 <= j < tl.ramps.len() && (#[trigger] tl.ramps[j]).range.holds(p) {
            let hit = choose|j: int|
                0 <= j < tl.ramps.len() && (#[trigger] tl.ramps[j]).range.holds(p);
            let ramp = tl.ramps[hit];
            let end = ramp.range.end.0 as int;
            assert forall|k: int| 0 <= k < tl.ramps.len() && k != hit
                implies !(#[trigger] tl.ramps[k]).range.holds( p,
            ) by {
                assert(apart(tl.ramps[k].range, tl.ramps[hit].range));
            }
            lemma_speed_of_first(tl.ramps, p, hit);
            assert(b <= end);
            lemma_boundary_in_ramp(tl, p, hit);
            assert forall|i: int| 0 <= i < nc implies #[trigger] cut_times(tl, p)(i) == cut_times(
                tl,
                b,
            )(i) by {
                assert(apart(tl.cuts[i], tl.ramps[hit].range));
            }
            assert forall|i: int| 0 <= i < nr && i != hit implies #[trigger] ramp_times(tl, p)(i)
                == ramp_times(tl, b)(i) by {
                assert(apart(tl.ramps[i].range, tl.ramps[hit].range));
            }
            assert forall|i: int| 0 <= i < nr && i != hit implies #[trigger] ramp_exports(tl, p)(i)
                == ramp_exports(tl, b)(i) by {
                assert(apart(tl.ramps[i].range, tl.ramps[hit].range));
            }
            assert(ramp_times(tl, p)(hit) == b - p);
            assert(ramp_times(tl, b)(hit) == 0);
            lemma_export_length_zero(ramp.pace());
            assert(ramp_exports(tl, p)(hit) == ramp_exports(tl, b)(hit) + export_length(
                b - p,
                ramp.pace(),
            ));
            lemma_sum_shift(nc, cut_times(tl, p), cut_times(tl, b), -1, 0);
            lemma_sum_shift(nr, ramp_times(tl, p), ramp_times(tl, b), hit, b - p);
            lemma_sum_shift(
                nr,
                ramp_exports(tl, p),
                ramp_exports(tl, b),
                hit,
                export_length(b - p, ramp.pace()),
            );
        } else {
            lemma_speed_of_first(tl.ramps, p, tl.ramps.len() as int);
            lemma_export_length_normal(b - p);
            assert forall|i: int| 0 <= i < nc implies #[trigger] cut_times(tl, p)(i) == cut_times(
                tl,
                b,
            )(i) by {
                assert(!tl.cuts[i].holds(p));
            }
            assert forall|i: int| 0 <= i < nr implies #[trigger] ramp_times(tl, p)(i) == ramp_times(
                tl,
                b,
            )(i) by {
                assert(!tl.ramps[i].range.holds(p));
            }
            assert forall|i: int| 0 <= i < nr implies #[trigger] ramp_exports(tl, p)(i)
                == ramp_exports(tl, b)(i) by {
                assert(!tl.ramps[i].range.holds(p));
            }
            lemma_sum_shift(nc, cut_times(tl, p), cut_times(tl, b), -1, 0);
            lemma_sum_shift(nr, ramp_times(tl, p), ramp_times(tl, b), -1, 0);
            lemma_sum_shift(nr, ramp_exports(tl, p), ramp_exports(tl, b), -1, 0);
        }
    }
}

/// Export duration additivity: with disjoint cuts and ramps the export takes
/// the sum of what its pieces take. The pieces are the ramps, each with its
/// own rounded export time, and what is left of the trimmed source beside the
/// ramps and the cuts, at its full length.
pub proof fn lemma_export_additive(r: TimeRemapper)
    requires
        r@.in_point <= r@.out_point,
        r@.is_disjoint(),
    ensures
        r@.export_length() == r@.export_by_parts(r@.in_point),
{
    lemma_export_from_by_parts(r@, r@.in_point);
}

} // verus!
