//! What holds of every sequence of generated keyframes: it is in order of
//! time, it opens with the whole frame, and the camera never pans faster than
//! the settings allow. And what holds of the viewport between keyframes: the
//! camera passes through each keyframe and rests on the last.

use vstd::prelude::*;
use crate::camera::easing::lemma_easing_endpoints;
use crate::camera::{
    cursor_pass, distance_squared, earliest_point, earliest_region, earliest_time, elapsed,
    exceeds_pan_speed, focus_keyframes, keyframes_of, latest_at, lemma_smoothed_keeps_times,
    lemma_span_below_far, limited_center, progress, reach, seed_keyframes, smooth_step, smoothed,
    toward, viewport_at,
};
use crate::fixed::{ceil_sqrt_of, gap, lemma_ceil_sqrt_exists, mix, round_div, UNIT};
use crate::order::{is_ordered, lemma_ordered, lemma_ordered_first, ordered, Timed};
use crate::types::{CameraKeyframe, CameraSettings, CursorTrackPoint, FocusRegion, Viewport};

verus! {

/// Keyframe order: the generated keyframes are in order of time.
pub proof fn lemma_keyframes_ordered(
    settings: CameraSettings,
    track: Seq<CursorTrackPoint>,
    regions: Seq<FocusRegion>,
)
    ensures
        is_ordered(keyframes_of(settings, track, regions)),
{
    let raw = cursor_pass(settings, seed_keyframes(track, regions), track).keyframes
        + focus_keyframes(settings, regions);
    lemma_ordered(raw);
    lemma_smoothed_keeps_times(settings, ordered(raw));
}

/// The earliest of a bound and the times of the cursor points is the bound
/// or one of the times, and none of them is earlier.
proof fn lemma_earliest_point(track: Seq<CursorTrackPoint>, bound: int)
    requires
        0 <= bound <= u64::MAX,
    ensures
        0 <= earliest_point(track, bound) <= bound,
        forall|i: int|
            0 <= i < track.len() ==> earliest_point(track, bound) <= (
            #[trigger] track[i]).timestamp.0,
        earliest_point(track, bound) == bound || exists|i: int|
            0 <= i < track.len() && (#[trigger] track[i]).timestamp.0 == earliest_point(
                track,
                bound,
            ),
        track.len() > 0 && bound == u64::MAX ==> exists|i: int|
            0 <= i < track.len() && (#[trigger] track[i]).timestamp.0 == earliest_point(
                track,
                bound,
            ),
    decreases track.len(),
{
    if track.len() > 0 {
        let head = track.drop_last();
        let e = earliest_point(track, bound);
        lemma_earliest_point(head, bound);
        let rest = earliest_point(head, bound);
        assert forall|i: int| 0 <= i < track.len()
            implies e <= (#[trigger] track[i]).timestamp.0 by {
            if i < head.len() {
                assert(track[i] == head[i]);
            }
        }
        if e == track.last().timestamp.0 {
            assert(track[track.len() - 1].timestamp.0 == e);
        } else if e != bound {
            let i = choose|i: int| 0 <= i < head.len() && (#[trigger] head[i]).timestamp.0 == rest;
            assert(track[i] == head[i]);
            assert(track[i].timestamp.0 == e);
        }
    }
}

/// The earliest of a bound and the times of the focus regions is the bound
/// or one of the times, and none of them is earlier.
proof fn lemma_earliest_region(regions: Seq<FocusRegion>, bound: int)
    requires
        0 <= bound <= u64::MAX,
    ensures
        0 <= earliest_region(regions, bound) <= bound,
        forall|i: int|
            0 <= i < regions.len() ==> earliest_region(regions, bound) <= (
            #[trigger] regions[i]).timestamp.0,
        earliest_region(regions, bound) == bound || exists|i: int|
            0 <= i < regions.len() && (#[trigger] regions[i]).timestamp.0 == earliest_region(
                regions,
                bound,
            ),
    decreases regions.len(),
{
    if regions.len() > 0 {
        let head = regions.drop_last();
        let e = earliest_region(regions, bound);
        lemma_earliest_region(head, bound);
        let rest = earliest_region(head, bound);
        assert forall|i: int| 0 <= i < regions.len()
            implies e <= (#[trigger] regions[i]).timestamp.0 by {
            if i < head.len() {
                assert(regions[i] == head[i]);
            }
        }
        if e == regions.last().timestamp.0 {
            assert(regions[regions.len() - 1].timestamp.0 == e);
        } else if e != bound {
            let i = choose|i: int| 0 <= i < head.len() && (#[trigger] head[i]).timestamp.0 == rest;
            assert(regions[i] == head[i]);
            assert(regions[i].timestamp.0 == e);
        }
    }
}

/// The earliest time is the time of a cursor point or a focus region, and
/// none of them is earlier.
pub proof fn lemma_earliest_time(track: Seq<CursorTrackPoint>, regions: Seq<FocusRegion>)
    ensures
        0 <= earliest_time(track, regions) <= u64::MAX,
        forall|i: int|
            0 <= i < track.len() ==> earliest_time(track, regions) <= (
            #[trigger] track[i]).timestamp.0,
        forall|i: int|
            0 <= i < regions.len() ==> earliest_time(track, regions) <= (
            #[trigger] regions[i]).timestamp.0,
        track.len() > 0 || regions.len() > 0 ==> (exists|i: int|
            0 <= i < track.len() && (#[trigger] track[i]).timestamp.0 == earliest_time(
                track,
                regions,
            )) || (exists|i: int|
            0 <= i < regions.len() && (#[trigger] regions[i]).timestamp.0 == earliest_time(
                track,
                regions,
            )),
{
    let bound = u64::MAX as int;
    lemma_earliest_point(track, bound);
    let among = earliest_point(track, bound);
    lemma_earliest_region(regions, among);
    let e = earliest_region(regions, among);
    if (track.len() > 0 || regions.len() > 0) && !(exists|i: int|
        0 <= i < regions.len() && (#[trigger] regions[i]).timestamp.0 == e) {
        assert(e == among);
        if track.len() == 0 {
            assert(regions[0].timestamp.0 >= e);
        }
    }
}

/// The walk along the cursor track keeps the keyframes that it began with
/// and adds none that is earlier than every cursor point.
proof fn lemma_cursor_pass_grows(
    settings: CameraSettings,
    seed: Seq<CameraKeyframe>,
    track: Seq<CursorTrackPoint>,
    bound: int,
)
    requires
        forall|k: int| 0 <= k < track.len() ==> bound <= (#[trigger] track[k]).timestamp.0,
    ensures
        seed.len() <= cursor_pass(settings, seed, track).keyframes.len(),
        forall|i: int|
            0 <= i < seed.len() ==> (#[trigger] cursor_pass(settings, seed, track).keyframes[i])
                == seed[i],
        forall|i: int|
            seed.len() <= i < cursor_pass(settings, seed, track).keyframes.len() ==> bound <= (
            #[trigger] cursor_pass(settings, seed, track).keyframes[i]).timestamp.0,
    decreases track.len(),
{
    if track.len() > 0 {
        let head = track.drop_last();
        let before = cursor_pass(settings, seed, head).keyframes;
        let after = cursor_pass(settings, seed, track).keyframes;
        assert forall|k: int| 0 <= k < head.len()
            implies bound <= (#[trigger] head[k]).timestamp.0 by {
            assert(head[k] == track[k]);
        }
        lemma_cursor_pass_grows(settings, seed, head, bound);
        assert(bound <= track[track.len() - 1].timestamp.0);
        assert forall|i: int| 0 <= i < seed.len() implies (#[trigger] after[i]) == seed[i] by {
            assert(after[i] == before[i]);
        }
        assert forall|i: int| seed.len() <= i < after.len()
            implies bound <= (#[trigger] after[i]).timestamp.0 by {
            if i < before.len() {
                assert(after[i] == before[i]);
            }
        }
    }
}

/// No keyframe of a focus region is earlier than every focus region.
proof fn lemma_focus_keyframes_times(
    settings: CameraSettings,
    regions: Seq<FocusRegion>,
    bound: int,
)
    requires
        forall|k: int| 0 <= k < regions.len() ==> bound <= (#[trigger] regions[k]).timestamp.0,
    ensures
        forall|i: int|
            0 <= i < focus_keyframes(settings, regions).len() ==> bound <= (
            #[trigger] focus_keyframes(settings, regions)[i]).timestamp.0,
    decreases regions.len(),
{
    if regions.len() > 0 {
        let head = regions.drop_last();
        let before = focus_keyframes(settings, head);
        let after = focus_keyframes(settings, regions);
        assert forall|k: int| 0 <= k < head.len()
            implies bound <= (#[trigger] head[k]).timestamp.0 by {
            assert(head[k] == regions[k]);
        }
        lemma_focus_keyframes_times(settings, head, bound);
        assert(bound <= regions[regions.len() - 1].timestamp.0);
        assert forall|i: int| 0 <= i < after.len()
            implies bound <= (#[trigger] after[i]).timestamp.0 by {
            if i < before.len() {
                assert(after[i] == before[i]);
            }
        }
    }
}

/// Enforcing the pan speed leaves the first keyframe as it is.
proof fn lemma_smoothed_first(settings: CameraSettings, s: Seq<CameraKeyframe>)
    requires
        s.len() > 0,
    ensures
        smoothed(settings, s).len() > 0,
        smoothed(settings, s)[0] == s[0],
    decreases s.len(),
{
    if s.len() > 1 {
        let head = s.drop_last();
        lemma_smoothed_first(settings, head);
        assert(head[0] == s[0]);
    }
}

/// The first keyframe is the opening one: wherever there is a cursor point or
/// a focus region, the generated keyframes begin with the whole frame at the
/// earliest time.
pub proof fn lemma_first_keyframe_is_seed(
    settings: CameraSettings,
    track: Seq<CursorTrackPoint>,
    regions: Seq<FocusRegion>,
)
    requires
        track.len() > 0 || regions.len() > 0,
    ensures
        keyframes_of(settings, track, regions).len() > 0,
        keyframes_of(settings, track, regions)[0] == seed_keyframes(track, regions)[0],
        keyframes_of(settings, track, regions)[0].viewport == Viewport::full(),
        keyframes_of(settings, track, regions)[0].timestamp.0 == earliest_time(track, regions),
{
    let seed = seed_keyframes(track, regions);
    let from_cursor = cursor_pass(settings, seed, track).keyframes;
    let from_focus = focus_keyframes(settings, regions);
    let raw = from_cursor + from_focus;
    let first = earliest_time(track, regions);
    lemma_earliest_time(track, regions);
    lemma_cursor_pass_grows(settings, seed, track, first);
    lemma_focus_keyframes_times(settings, regions, first);
    assert(raw[0] == from_cursor[0]);
    assert(raw[0] == seed[0]);
    assert forall|i: int| 0 <= i < raw.len()
        implies raw[0].time() <= (#[trigger] raw[i]).time() by {
        if i < from_cursor.len() {
            assert(raw[i] == from_cursor[i]);
        } else {
            assert(raw[i] == from_focus[i - from_cursor.len()]);
        }
    }
    lemma_ordered_first(raw);
    lemma_smoothed_first(settings, ordered(raw));
}

/// The centre of every keyframe lies on the frame.
pub open spec fn centers_valid(s: Seq<CameraKeyframe>) -> bool {
    forall|i: int| 0 <= i < s.len() ==> (#[trigger] s[i]).viewport.center.is_valid()
}

/// Cursor points on the frame give keyframes on the frame.
pub proof fn lemma_cursor_pass_valid(
    settings: CameraSettings,
    seed: Seq<CameraKeyframe>,
    track: Seq<CursorTrackPoint>,
)
    requires
        centers_valid(seed),
        forall|k: int| 0 <= k < track.len() ==> (#[trigger] track[k]).position.is_valid(),
    ensures
        centers_valid(cursor_pass(settings, seed, track).keyframes),
    decreases track.len(),
{
    if track.len() > 0 {
        let head = track.drop_last();
        assert forall|k: int| 0 <= k < head.len()
            implies (#[trigger] head[k]).position.is_valid() by {
            assert(head[k] == track[k]);
        }
        lemma_cursor_pass_valid(settings, seed, head);
        assert(track.last() == track[track.len() - 1]);
    }
}

/// The keyframes of focus regions lie on the frame.
pub proof fn lemma_focus_keyframes_valid(settings: CameraSettings, regions: Seq<FocusRegion>)
    ensures
        centers_valid(focus_keyframes(settings, regions)),
    decreases regions.len(),
{
    if regions.len() > 0 {
        lemma_focus_keyframes_valid(settings, regions.drop_last());
    }
}

/// With the cursor positions on the frame, the keyframes before the pan
/// speed is enforced lie on the frame. Returns those keyframes.
proof fn lemma_keyframes_on_frame(
    settings: CameraSettings,
    track: Seq<CursorTrackPoint>,
    regions: Seq<FocusRegion>,
) -> (sorted: Seq<CameraKeyframe>)
    requires
        forall|k: int| 0 <= k < track.len() ==> (#[trigger] track[k]).position.is_valid(),
    ensures
        centers_valid(sorted),
        keyframes_of(settings, track, regions) == smoothed(settings, sorted),
{
    let seed = seed_keyframes(track, regions);
    assert(centers_valid(seed));
    lemma_cursor_pass_valid(settings, seed, track);
    lemma_focus_keyframes_valid(settings, regions);
    let from_cursor = cursor_pass(settings, seed, track).keyframes;
    let from_focus = focus_keyframes(settings, regions);
    let raw = from_cursor + from_focus;
    assert forall|k: int| 0 <= k < raw.len()
        implies (#[trigger] raw[k]).viewport.center.is_valid() by {
        if k < from_cursor.len() {
            assert(raw[k] == from_cursor[k]);
        } else {
            assert(raw[k] == from_focus[k - from_cursor.len()]);
        }
    }
    lemma_ordered(raw);
    let sorted = ordered(raw);
    assert forall|k: int| 0 <= k < sorted.len()
        implies (#[trigger] sorted[k]).viewport.center.is_valid() by {
        assert(raw.contains(sorted[k]));
        let m = choose|m: int| 0 <= m < raw.len() && raw[m] == sorted[k];
        assert(raw[m].viewport.center.is_valid());
    }
    sorted
}

/// A shortened component lies between the two ends, and its length is at
/// most the part `span / (UNIT * far)` of the whole.
proof fn lemma_toward(from: int, to: int, span: int, far: int)
    requires
        0 < far,
        0 <= span < UNIT * far,
    ensures
        from <= to ==> from <= toward(from, to, span, far) <= to,
        to <= from ==> to <= toward(from, to, span, far) <= from,
        gap(from, toward(from, to, span, far)) * (UNIT * far) <= gap(from, to) * span,
{
    let d = gap(from, to);
    let scale = UNIT * far;
    let step = (d * span) / scale;
    assert(0 <= step <= d && step * scale <= d * span) by (nonlinear_arith)
        requires
            step == (d * span) / scale,
            0 <= d,
            0 <= span < scale,
    ;
}

/// Two components that are each shortened by the same part make a way that
/// is no longer than the span.
proof fn lemma_shortened(qx: int, qy: int, dx: int, dy: int, far: int, span: int, unit: int)
    requires
        0 <= qx,
        0 <= qy,
        0 <= dx,
        0 <= dy,
        0 <= span,
        0 < far,
        0 < unit,
        qx * (unit * far) <= dx * span,
        qy * (unit * far) <= dy * span,
        dx * dx + dy * dy <= far * far,
    ensures
        (qx * qx + qy * qy) * (unit * unit) <= span * span,
{
    let scale = unit * far;
    let ax = qx * scale;
    let bx = dx * span;
    let ay = qy * scale;
    let by = dy * span;
    let short = qx * qx + qy * qy;
    let whole = dx * dx + dy * dy;
    assert(0 < scale) by (nonlinear_arith)
        requires
            scale == unit * far,
            0 < unit,
            0 < far,
    ;
    assert(0 <= ax && 0 <= ay) by (nonlinear_arith)
        requires
            0 <= qx,
            0 <= qy,
            0 < scale,
            ax == qx * scale,
            ay == qy * scale,
    ;
    assert(ax * ax <= bx * bx) by (nonlinear_arith)
        requires
            0 <= ax <= bx,
    ;
    assert(ay * ay <= by * by) by (nonlinear_arith)
        requires
            0 <= ay <= by,
    ;
    assert(ax * ax == (qx * qx) * (scale * scale)) by (nonlinear_arith)
        requires
            ax == qx * scale,
    ;
    assert(ay * ay == (qy * qy) * (scale * scale)) by (nonlinear_arith)
        requires
            ay == qy * scale,
    ;
    assert(bx * bx == (dx * dx) * (span * span)) by (nonlinear_arith)
        requires
            bx == dx * span,
    ;
    assert(by * by == (dy * dy) * (span * span)) by (nonlinear_arith)
        requires
            by == dy * span,
    ;
    let span_sq = span * span;
    let scale_sq = scale * scale;
    let far_sq = far * far;
    let unit_sq = unit * unit;
    assert(short * scale_sq == (qx * qx) * scale_sq + (qy * qy) * scale_sq) by (nonlinear_arith)
        requires
            short == qx * qx + qy * qy,
    ;
    assert(whole * span_sq == (dx * dx) * span_sq + (dy * dy) * span_sq) by (nonlinear_arith)
        requires
            whole == dx * dx + dy * dy,
    ;
    assert(whole * span_sq <= far_sq * span_sq) by (nonlinear_arith)
        requires
            whole <= far_sq,
            0 <= span_sq,
    ;
    assert(scale_sq == unit_sq * far_sq) by (nonlinear_arith)
        requires
            scale_sq == scale * scale,
            scale == unit * far,
            unit_sq == unit * unit,
            far_sq == far * far,
    ;
    assert(short * scale_sq == (short * unit_sq) * far_sq) by (nonlinear_arith)
        requires
            scale_sq == unit_sq * far_sq,
    ;
    assert(0 < far_sq) by (nonlinear_arith)
        requires
            far_sq == far * far,
            0 < far,
    ;
    assert(short * unit_sq <= span_sq) by (nonlinear_arith)
        requires
            (short * unit_sq) * far_sq <= far_sq * span_sq,
            0 < far_sq,
    ;
}

/// After its step a keyframe lies on the frame and within reach of the
/// keyframe before it.
pub proof fn lemma_smooth_step_bound(
    settings: CameraSettings,
    prev: CameraKeyframe,
    cur: CameraKeyframe,
)
    requires
        prev.viewport.center.is_valid(),
        cur.viewport.center.is_valid(),
    ensures
        smooth_step(settings, prev, cur).viewport.center.is_valid(),
        !exceeds_pan_speed(
            settings,
            prev.viewport.center,
            smooth_step(settings, prev, cur).viewport.center,
            elapsed(cur.timestamp.0 as int, prev.timestamp.0 as int),
        ),
{
    let dt = elapsed(cur.timestamp.0 as int, prev.timestamp.0 as int);
    let from = prev.viewport.center;
    let to = cur.viewport.center;
    if exceeds_pan_speed(settings, from, to, dt) {
        let dx = gap(from.x as int, to.x as int);
        let dy = gap(from.y as int, to.y as int);
        let far_squared = distance_squared(from, to);
        let span = reach(settings, dt);
        assert(0 <= dx * dx && 0 <= dy * dy) by (nonlinear_arith);
        assert(0 <= span) by (nonlinear_arith)
            requires
                span == settings.max_pan_speed * dt,
                0 <= settings.max_pan_speed,
                0 < dt,
        ;
        lemma_ceil_sqrt_exists(far_squared);
        let far = ceil_sqrt_of(far_squared);
        lemma_span_below_far(far_squared, far, span);
        lemma_toward(from.x as int, to.x as int, span, far);
        lemma_toward(from.y as int, to.y as int, span, far);
        let nx = toward(from.x as int, to.x as int, span, far);
        let ny = toward(from.y as int, to.y as int, span, far);
        let moved = limited_center(settings, from, to, dt);
        assert(moved.x == nx && moved.y == ny);
        let qx = gap(from.x as int, nx);
        let qy = gap(from.y as int, ny);
        lemma_shortened(qx, qy, dx, dy, far, span, UNIT as int);
        assert(distance_squared(from, moved) == qx * qx + qy * qy);
    }
}

/// The centre moves from the keyframe before the `i`-th to the `i`-th no
/// faster than the pan speed allows.
pub open spec fn keeps_pace(settings: CameraSettings, s: Seq<CameraKeyframe>, i: int) -> bool {
    !exceeds_pan_speed(
        settings,
        s[i - 1].viewport.center,
        s[i].viewport.center,
        elapsed(s[i].timestamp.0 as int, s[i - 1].timestamp.0 as int),
    )
}

/// With every keyframe on the frame, enforcing the pan speed leaves every
/// keyframe on the frame and each within reach of the one before it.
pub proof fn lemma_smoothed_bound(settings: CameraSettings, s: Seq<CameraKeyframe>)
    requires
        centers_valid(s),
    ensures
        centers_valid(smoothed(settings, s)),
        forall|i: int|
            1 <= i < smoothed(settings, s).len() ==> #[trigger] keeps_pace(
                settings,
                smoothed(settings, s),
                i,
            ),
    decreases s.len(),
{
    if s.len() > 1 {
        let head = s.drop_last();
        assert forall|k: int| 0 <= k < head.len()
            implies (#[trigger] head[k]).viewport.center.is_valid() by {
            assert(head[k] == s[k]);
        }
        lemma_smoothed_bound(settings, head);
        lemma_smoothed_keeps_times(settings, head);
        let before = smoothed(settings, head);
        let last = smooth_step(settings, before.last(), s.last());
        let r = smoothed(settings, s);
        assert(r == before.push(last));
        assert(before.last() == before[before.len() - 1]);
        assert(s.last() == s[s.len() - 1]);
        lemma_smooth_step_bound(settings, before.last(), s.last());
        assert forall|i: int| 0 <= i < r.len()
            implies (#[trigger] r[i]).viewport.center.is_valid() by {
            if i < before.len() {
                assert(r[i] == before[i]);
            }
        }
        assert forall|i: int| 1 <= i < r.len() implies #[trigger] keeps_pace(settings, r, i) by {
            if i < before.len() {
                assert(keeps_pace(settings, before, i));
                assert(r[i] == before[i]);
                assert(r[i - 1] == before[i - 1]);
            } else {
                assert(r[i - 1] == before.last());
                assert(r[i] == last);
                assert(last.timestamp == s.last().timestamp);
            }
        }
    }
}

/// Pan-speed bound: between two generated keyframes that follow one another
/// at different times the centre moves no faster than the maximum pan speed.
/// The cursor positions must lie on the frame.
pub proof fn lemma_pan_speed_bound(
    settings: CameraSettings,
    track: Seq<CursorTrackPoint>,
    regions: Seq<FocusRegion>,
    i: int,
)
    requires
        forall|k: int| 0 <= k < track.len() ==> (#[trigger] track[k]).position.is_valid(),
        1 <= i < keyframes_of(settings, track, regions).len(),
        keyframes_of(settings, track, regions)[i - 1].timestamp.0 < keyframes_of(
            settings,
            track,
            regions,
        )[i].timestamp.0,
    ensures
        ({
            let from = keyframes_of(settings, track, regions)[i - 1];
            let to = keyframes_of(settings, track, regions)[i];
            let dt = to.timestamp.0 - from.timestamp.0;
            distance_squared(from.viewport.center, to.viewport.center) * (UNIT * UNIT) <= (
            settings.max_pan_speed * dt) * (settings.max_pan_speed * dt)
        }),
{
    let sorted = lemma_keyframes_on_frame(settings, track, regions);
    lemma_smoothed_bound(settings, sorted);
    let r = keyframes_of(settings, track, regions);
    assert(r == smoothed(settings, sorted));
    assert(keeps_pace(settings, r, i));
}

/// Without cursor points and focus regions there are no keyframes.
pub proof fn lemma_no_input_no_keyframes(settings: CameraSettings)
    ensures
        keyframes_of(
            settings,
            Seq::<CursorTrackPoint>::empty(),
            Seq::<FocusRegion>::empty(),
        ).len() == 0,
{
    let track = Seq::<CursorTrackPoint>::empty();
    let regions = Seq::<FocusRegion>::empty();
    let raw = cursor_pass(settings, seed_keyframes(track, regions), track).keyframes
        + focus_keyframes(settings, regions);
    assert(raw.len() == 0);
    lemma_ordered(raw);
    lemma_smoothed_keeps_times(settings, ordered(raw));
}

/// The place that `latest_at` names holds a keyframe that is not later than
/// `t`, and every keyframe behind it is later.
pub proof fn lemma_latest_at(keyframes: Seq<CameraKeyframe>, t: int)
    ensures
        -1 <= latest_at(keyframes, t) < keyframes.len(),
        latest_at(keyframes, t) >= 0 ==> keyframes[latest_at(keyframes, t)].timestamp.0 <= t,
        forall|j: int|
            latest_at(keyframes, t) < j < keyframes.len() ==> t < (#[trigger] keyframes[j]).timestamp.0,
    decreases keyframes.len(),
{
    if keyframes.len() > 0 && keyframes.last().timestamp.0 > t {
        let head = keyframes.drop_last();
        lemma_latest_at(head, t);
        assert forall|j: int| latest_at(keyframes, t) < j < keyframes.len()
            implies t < (#[trigger] keyframes[j]).timestamp.0 by {
            if j < head.len() {
                assert(keyframes[j] == head[j]);
            }
        }
        if latest_at(head, t) >= 0 {
            assert(keyframes[latest_at(head, t)] == head[latest_at(head, t)]);
        }
    }
}

/// Only one place holds a keyframe that is not later than `t` while every
/// keyframe behind it is later.
pub proof fn lemma_latest_at_unique(keyframes: Seq<CameraKeyframe>, t: int, i: int)
    requires
        -1 <= i < keyframes.len(),
        i >= 0 ==> keyframes[i].timestamp.0 <= t,
        forall|j: int| i < j < keyframes.len() ==> t < (#[trigger] keyframes[j]).timestamp.0,
    ensures
        latest_at(keyframes, t) == i,
{
    lemma_latest_at(keyframes, t);
    let k = latest_at(keyframes, t);
    if k < i {
        assert(t < keyframes[i].timestamp.0);
    } else if i < k {
        assert(t < keyframes[k].timestamp.0);
    }
}

/// The camera passes through its keyframes: at the time of a keyframe that
/// lies on the frame and before the next, the viewport is that keyframe's.
pub proof fn lemma_viewport_at_keyframe(keyframes: Seq<CameraKeyframe>, i: int)
    requires
        is_ordered(keyframes),
        0 <= i < keyframes.len(),
        i + 1 < keyframes.len() ==> keyframes[i].timestamp.0 < keyframes[i + 1].timestamp.0,
        keyframes[i].viewport.center.is_valid(),
    ensures
        viewport_at(keyframes, keyframes[i].timestamp.0 as int) == keyframes[i].viewport,
{
    let t = keyframes[i].timestamp.0 as int;
    assert forall|j: int| i < j < keyframes.len() implies t < (#[trigger] keyframes[j]).timestamp.0 by {
        assert(keyframes[i + 1].time() <= keyframes[j].time());
    }
    lemma_latest_at_unique(keyframes, t, i);
    if i + 1 < keyframes.len() {
        let prev = keyframes[i];
        let next = keyframes[i + 1];
        let whole = next.timestamp.0 - prev.timestamp.0;
        assert(progress(0, whole) == 0) by (nonlinear_arith)
            requires
                0 < whole,
        ;
        lemma_easing_endpoints(next.easing);
        lemma_mix_start(prev.viewport.center.x as int, next.viewport.center.x as int);
        lemma_mix_start(prev.viewport.center.y as int, next.viewport.center.y as int);
        lemma_mix_start(prev.viewport.zoom as int, next.viewport.zoom as int);
    }
}

/// After the last keyframe the viewport stays the last keyframe's.
pub proof fn lemma_viewport_after_last(keyframes: Seq<CameraKeyframe>, t: int)
    requires
        is_ordered(keyframes),
        keyframes.len() > 0,
        keyframes.last().timestamp.0 <= t,
    ensures
        viewport_at(keyframes, t) == keyframes.last().viewport,
{
    lemma_latest_at_unique(keyframes, t, keyframes.len() - 1);
}

/// None of the way from `a` to `b` is `a`.
proof fn lemma_mix_start(a: int, b: int)
    ensures
        mix(a, b, 0, UNIT as int) == a,
{
    assert(round_div(gap(a, b) * 0, UNIT as int) == 0) by (nonlinear_arith);
}

} // verus!
