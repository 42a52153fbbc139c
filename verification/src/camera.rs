//! The camera: keyframes for zoom and pan from the cursor track and the focus
//! regions, and the viewport at any time between them.
//!
//! The module `easing` holds the curves along which the camera moves, the
//! module `laws` what holds of every sequence of generated keyframes.

pub mod easing;
pub mod laws;

pub use easing::{apply_easing, lerp};

use vstd::prelude::*;
use crate::camera::easing::eased;
use crate::fixed::{
    ceil_sqrt, ceil_sqrt_of, clamp_int, clamp_to, div_round, gap, gap_of, is_ceil_sqrt,
    lemma_round_div_bounds, lemma_round_div_exact, lemma_round_div_monotonic, mix, round_div, UNIT,
};
use crate::order::{is_ordered, ordered, sort_by_time, Timed};
use crate::types::{
    CameraKeyframe, CameraSettings, copy_of, CursorState, CursorTrackPoint, EasingType,
    FocusRegion, NormalizedCoord, NormalizedRect, Timestamp, Viewport,
};

verus! {

/// The lowest confidence at which a cursor point moves the camera.
pub const MIN_CURSOR_CONFIDENCE: u8 = 70;

/// The lowest importance, in millionths, at which a focus region moves the
/// camera.
pub const MIN_FOCUS_IMPORTANCE: u32 = 800_000;

impl Timed for CameraKeyframe {
    open spec fn time(&self) -> u64 {
        self.timestamp.0
    }

    fn time_of(&self) -> (t: u64) {
        self.timestamp.0
    }
}

/// The time from `earlier` to `later`, and none if `later` is not later.
pub open spec fn elapsed(later: int, earlier: int) -> int {
    if later >= earlier {
        later - earlier
    } else {
        0
    }
}

/// The square of the distance between two positions.
pub open spec fn distance_squared(a: NormalizedCoord, b: NormalizedCoord) -> int {
    gap(a.x as int, b.x as int) * gap(a.x as int, b.x as int) + gap(a.y as int, b.y as int) * gap(
        a.y as int,
        b.y as int,
    )
}

/// `target` is nearer to `center` than the radius of the dead zone.
pub open spec fn within_dead_zone(
    settings: CameraSettings,
    center: NormalizedCoord,
    target: NormalizedCoord,
) -> bool {
    distance_squared(center, target) < settings.dead_zone * settings.dead_zone
}

/// The zoom for a cursor in a given state: the zoom strength where it is
/// visible, four fifths of that where it is inferred, none where it is hidden.
pub open spec fn cursor_zoom(settings: CameraSettings, state: CursorState) -> int {
    match state {
        CursorState::Visible => settings.zoom_strength as int,
        CursorState::Inferred => round_div(settings.zoom_strength * 4, 5),
        CursorState::Hidden => UNIT as int,
    }
}

/// The zoom at which the larger side of `bounds` fills the frame, and the
/// zoom strength if that is less. Bounds without extent get no zoom.
pub open spec fn bounds_zoom(settings: CameraSettings, bounds: NormalizedRect) -> int {
    let side = if bounds.width >= bounds.height {
        bounds.width as int
    } else {
        bounds.height as int
    };
    if side > 0 {
        if round_div(UNIT * UNIT, side) < settings.zoom_strength {
            round_div(UNIT * UNIT, side)
        } else {
            settings.zoom_strength as int
        }
    } else {
        UNIT as int
    }
}

/// The keyframe that a cursor point gives.
pub open spec fn cursor_keyframe(
    settings: CameraSettings,
    point: CursorTrackPoint,
) -> CameraKeyframe {
    CameraKeyframe {
        timestamp: point.timestamp,
        viewport: Viewport {
            center: point.position,
            zoom: cursor_zoom(settings, point.state) as u32,
        },
        easing: EasingType::EaseInOut,
    }
}

/// The keyframe that a focus region gives.
pub open spec fn focus_keyframe(settings: CameraSettings, region: FocusRegion) -> CameraKeyframe {
    CameraKeyframe {
        timestamp: region.timestamp,
        viewport: Viewport {
            center: region.bounds.center_spec(),
            zoom: bounds_zoom(settings, region.bounds) as u32,
        },
        easing: EasingType::EaseOut,
    }
}

/// The earliest of `bound` and the times of the cursor points.
pub open spec fn earliest_point(track: Seq<CursorTrackPoint>, bound: int) -> int
    decreases track.len(),
{
    if track.len() == 0 {
        bound
    } else {
        let rest = earliest_point(track.drop_last(), bound);
        if track.last().timestamp.0 < rest {
            track.last().timestamp.0 as int
        } else {
            rest
        }
    }
}

/// The earliest of `bound` and the times of the focus regions.
pub open spec fn earliest_region(regions: Seq<FocusRegion>, bound: int) -> int
    decreases regions.len(),
{
    if regions.len() == 0 {
        bound
    } else {
        let rest = earliest_region(regions.drop_last(), bound);
        if regions.last().timestamp.0 < rest {
            regions.last().timestamp.0 as int
        } else {
            rest
        }
    }
}

/// The earliest time among the cursor points and the focus regions.
pub open spec fn earliest_time(track: Seq<CursorTrackPoint>, regions: Seq<FocusRegion>) -> int {
    earliest_region(regions, earliest_point(track, u64::MAX as int))
}

/// The keyframe that opens the sequence: the whole frame, at the earliest
/// time among the cursor points and the focus regions. Without either there
/// is none.
pub open spec fn seed_keyframes(
    track: Seq<CursorTrackPoint>,
    regions: Seq<FocusRegion>,
) -> Seq<CameraKeyframe> {
    if track.len() > 0 || regions.len() > 0 {
        seq![
            CameraKeyframe {
                timestamp: Timestamp(earliest_time(track, regions) as u64),
                viewport: Viewport::full(),
                easing: EasingType::EaseOut,
            },
        ]
    } else {
        Seq::empty()
    }
}

/// Where the walk along the cursor track stands: the keyframes so far, and
/// the time of the last one that a cursor point gave (zero before the first).
pub struct CursorPass {
    pub keyframes: Seq<CameraKeyframe>,
    pub last_time: int,
}

/// A cursor point gives a keyframe if the camera has held long enough, the
/// point lies outside the dead zone around the last keyframe, and its
/// confidence is high enough.
pub open spec fn accepts(
    settings: CameraSettings,
    pass: CursorPass,
    point: CursorTrackPoint,
) -> bool {
    &&& elapsed(point.timestamp.0 as int, pass.last_time) >= settings.min_hold_time_us
    &&& !(pass.keyframes.len() > 0 && within_dead_zone(
        settings,
        pass.keyframes.last().viewport.center,
        point.position,
    ))
    &&& point.confidence >= MIN_CURSOR_CONFIDENCE
}

/// The walk after one more cursor point.
pub open spec fn cursor_step(
    settings: CameraSettings,
    pass: CursorPass,
    point: CursorTrackPoint,
) -> CursorPass {
    if accepts(settings, pass, point) {
        CursorPass {
            keyframes: pass.keyframes.push(cursor_keyframe(settings, point)),
            last_time: point.timestamp.0 as int,
        }
    } else {
        pass
    }
}

/// The walk along the whole cursor track, begun with the keyframes `seed`.
pub open spec fn cursor_pass(
    settings: CameraSettings,
    seed: Seq<CameraKeyframe>,
    track: Seq<CursorTrackPoint>,
) -> CursorPass
    decreases track.len(),
{
    if track.len() == 0 {
        CursorPass { keyframes: seed, last_time: 0 }
    } else {
        cursor_step(settings, cursor_pass(settings, seed, track.drop_last()), track.last())
    }
}

/// The keyframes of the focus regions that are important enough, in the order
/// of the regions.
pub open spec fn focus_keyframes(
    settings: CameraSettings,
    regions: Seq<FocusRegion>,
) -> Seq<CameraKeyframe>
    decreases regions.len(),
{
    if regions.len() == 0 {
        Seq::empty()
    } else {
        let head = focus_keyframes(settings, regions.drop_last());
        if regions.last().importance >= MIN_FOCUS_IMPORTANCE {
            head.push(focus_keyframe(settings, regions.last()))
        } else {
            head
        }
    }
}

/// How far the centre may move in `dt` microseconds, in millionths of a
/// millionth of the frame.
pub open spec fn reach(settings: CameraSettings, dt: int) -> int {
    settings.max_pan_speed * dt
}

/// The way from `from` to `to` is longer than the pan speed allows in `dt`
/// microseconds.
pub open spec fn exceeds_pan_speed(
    settings: CameraSettings,
    from: NormalizedCoord,
    to: NormalizedCoord,
    dt: int,
) -> bool {
    dt > 0 && distance_squared(from, to) * (UNIT * UNIT) > reach(settings, dt) * reach(settings, dt)
}

/// One component of a shortened way: from `from` toward `to`, the part
/// `span / (UNIT * far)` of the distance, rounded toward `from`.
pub open spec fn toward(from: int, to: int, span: int, far: int) -> int {
    if to >= from {
        from + ((to - from) * span) / (UNIT * far)
    } else {
        from - ((from - to) * span) / (UNIT * far)
    }
}

/// The position on the way from `from` to `to` that the pan speed allows in
/// `dt` microseconds. Each component is rounded toward `from`, so that the
/// shortened way is never longer than allowed.
pub open spec fn limited_center(
    settings: CameraSettings,
    from: NormalizedCoord,
    to: NormalizedCoord,
    dt: int,
) -> NormalizedCoord {
    let far = ceil_sqrt_of(distance_squared(from, to));
    NormalizedCoord::clamped(
        toward(from.x as int, to.x as int, reach(settings, dt), far),
        toward(from.y as int, to.y as int, reach(settings, dt), far),
    )
}

/// The keyframe `cur` as it follows `prev` once the pan speed is enforced:
/// where the centre would move too fast, it moves only as far as allowed.
/// Time, zoom and easing stay.
pub open spec fn smooth_step(
    settings: CameraSettings,
    prev: CameraKeyframe,
    cur: CameraKeyframe,
) -> CameraKeyframe {
    let dt = elapsed(cur.timestamp.0 as int, prev.timestamp.0 as int);
    if exceeds_pan_speed(settings, prev.viewport.center, cur.viewport.center, dt) {
        CameraKeyframe {
            timestamp: cur.timestamp,
            viewport: Viewport {
                center: limited_center(settings, prev.viewport.center, cur.viewport.center, dt),
                zoom: cur.viewport.zoom,
            },
            easing: cur.easing,
        }
    } else {
        cur
    }
}

/// The keyframes with the pan speed enforced from the first to the last, each
/// against the one before it as it stands after its own step.
pub open spec fn smoothed(settings: CameraSettings, s: Seq<CameraKeyframe>) -> Seq<CameraKeyframe>
    decreases s.len(),
{
    if s.len() <= 1 {
        s
    } else {
        let head = smoothed(settings, s.drop_last());
        head.push(smooth_step(settings, head.last(), s.last()))
    }
}

/// The keyframes for a cursor track and focus regions: the opening keyframe,
/// those of the cursor points, those of the focus regions, all in order of
/// time, with the pan speed enforced.
pub open spec fn keyframes_of(
    settings: CameraSettings,
    track: Seq<CursorTrackPoint>,
    regions: Seq<FocusRegion>,
) -> Seq<CameraKeyframe> {
    smoothed(
        settings,
        ordered(
            cursor_pass(settings, seed_keyframes(track, regions), track).keyframes
                + focus_keyframes(settings, regions),
        ),
    )
}

/// The part of the time between two keyframes that is gone, in millionths.
pub open spec fn progress(gone: int, whole: int) -> int {
    round_div(gone * UNIT, whole)
}

/// The viewport that lies `s` millionths of the way from `a` to `b`. The
/// centre is brought into the frame; the zoom stays within what a zoom can
/// hold.
pub open spec fn blend(a: Viewport, b: Viewport, s: int) -> Viewport {
    Viewport {
        center: NormalizedCoord::clamped(
            mix(a.center.x as int, b.center.x as int, s, UNIT as int),
            mix(a.center.y as int, b.center.y as int, s, UNIT as int),
        ),
        zoom: clamp_int(
            mix(a.zoom as int, b.zoom as int, s, UNIT as int),
            0,
            u32::MAX as int,
        ) as u32,
    }
}

/// The place of the last keyframe that is not later than `t`, and -1 if
/// every keyframe is later. `laws::lemma_latest_at` shows that it is that
/// place, and `laws::lemma_latest_at_unique` that no other is.
pub open spec fn latest_at(keyframes: Seq<CameraKeyframe>, t: int) -> int
    decreases keyframes.len(),
{
    if keyframes.len() == 0 {
        -1
    } else if keyframes.last().timestamp.0 <= t {
        keyframes.len() - 1
    } else {
        latest_at(keyframes.drop_last(), t)
    }
}

/// The viewport at time `t`. Without keyframes it is the whole frame. Before
/// the first keyframe it is the first keyframe's, from the last keyframe on
/// the last one's. In between, the camera moves from the keyframe before `t`
/// to the one after it along the curve of the latter.
pub open spec fn viewport_at(keyframes: Seq<CameraKeyframe>, t: int) -> Viewport {
    if keyframes.len() == 0 {
        Viewport::full()
    } else {
        let i = latest_at(keyframes, t);
        if i < 0 {
            keyframes[0].viewport
        } else if i + 1 >= keyframes.len() {
            keyframes[i].viewport
        } else {
            let prev = keyframes[i];
            let next = keyframes[i + 1];
            if t >= next.timestamp.0 {
                next.viewport
            } else {
                blend(
                    prev.viewport,
                    next.viewport,
                    eased(
                        progress(t - prev.timestamp.0, next.timestamp.0 - prev.timestamp.0),
                        next.easing,
                    ),
                )
            }
        }
    }
}

/// The rounded quotient of a part by the whole that it is a part of is at
/// most `unit`.
pub proof fn lemma_round_div_part(part: int, whole: int, unit: int)
    requires
        0 <= part <= whole,
        0 < whole,
        0 <= unit,
    ensures
        0 <= round_div(part * unit, whole) <= unit,
{
    assert(0 <= part * unit <= unit * whole) by (nonlinear_arith)
        requires
            0 <= part <= whole,
            0 <= unit,
    ;
    lemma_round_div_monotonic(part * unit, unit * whole, whole);
    lemma_round_div_exact(unit, whole);
    lemma_round_div_bounds(part * unit, whole);
}

/// What a camera engine stands for: its settings and the keyframes that it
/// generated last.
pub struct Camera {
    pub settings: CameraSettings,
    pub keyframes: Seq<CameraKeyframe>,
}

/// Generates camera keyframes and answers viewport queries from the keyframes
/// that it generated last.
pub struct CameraEngine {
    settings: CameraSettings,
    keyframes: Vec<CameraKeyframe>,
}

impl View for CameraEngine {
    type V = Camera;

    closed spec fn view(&self) -> Camera {
        Camera { settings: self.settings, keyframes: self.keyframes@ }
    }
}

/// The square of the distance between two positions.
fn distance_squared_of(a: &NormalizedCoord, b: &NormalizedCoord) -> (d: u128)
    ensures
        d == distance_squared(*a, *b),
        d <= 2 * (0xffff_ffff * 0xffff_ffff),
{
    let dx: u128 = gap_of(a.x, b.x) as u128;
    let dy: u128 = gap_of(a.y, b.y) as u128;
    assert(0 <= dx * dx <= 0xffff_ffff * 0xffff_ffff) by (nonlinear_arith)
        requires
            0 <= dx <= 0xffff_ffff,
    ;
    assert(0 <= dy * dy <= 0xffff_ffff * 0xffff_ffff) by (nonlinear_arith)
        requires
            0 <= dy <= 0xffff_ffff,
    ;
    dx * dx + dy * dy
}

/// One component of a shortened way.
fn toward_of(from: u32, to: u32, span: u128, far: u64) -> (r: i64)
    requires
        0 < far <= 0x2_0000_0000,
        span < UNIT * far,
    ensures
        r == toward(from as int, to as int, span as int, far as int),
        from <= to ==> from <= r <= to,
        to <= from ==> to <= r <= from,
{
    let d: u128 = gap_of(from, to) as u128;
    assert(UNIT * far <= 1_000_000 * 0x2_0000_0000) by (nonlinear_arith)
        requires
            UNIT == 1_000_000,
            far <= 0x2_0000_0000,
    ;
    let scale: u128 = UNIT as u128 * far as u128;
    assert(0 <= d * span <= 0xffff_ffff * scale) by (nonlinear_arith)
        requires
            0 <= d <= 0xffff_ffff,
            0 <= span < scale,
    ;
    assert(0xffff_ffff * scale <= 0xffff_ffff * (1_000_000 * 0x2_0000_0000)) by (nonlinear_arith)
        requires
            scale <= 1_000_000 * 0x2_0000_0000,
    ;
    let step: u128 = (d * span) / scale;
    assert(step <= d) by (nonlinear_arith)
        requires
            step == (d * span) / (scale as int),
            0 <= d,
            0 <= span < scale,
    ;
    if to >= from {
        from as i64 + step as i64
    } else {
        from as i64 - step as i64
    }
}

/// The earliest time among the cursor points and the focus regions.
fn first_time(cursor_track: &[CursorTrackPoint], focus_regions: &[FocusRegion]) -> (t: Timestamp)
    ensures
        t.0 == earliest_time(cursor_track@, focus_regions@),
{
    let mut first: u64 = u64::MAX;
    let mut i: usize = 0;
    assert(cursor_track@.subrange(0, 0) =~= Seq::<CursorTrackPoint>::empty());
    while i < cursor_track.len()
        invariant
            i <= cursor_track.len(),
            first == earliest_point(cursor_track@.subrange(0, i as int), u64::MAX as int),
        decreases cursor_track.len() - i,
    {
        let ghost upto = cursor_track@.subrange(0, i + 1);
        assert(upto.last() == cursor_track@[i as int]);
        assert(upto.drop_last() == cursor_track@.subrange(0, i as int));
        if cursor_track[i].timestamp.0 < first {
            first = cursor_track[i].timestamp.0;
        }
        i += 1;
    }
    assert(cursor_track@.subrange(0, cursor_track.len() as int) == cursor_track@);
    let ghost bound = first as int;
    let mut k: usize = 0;
    assert(focus_regions@.subrange(0, 0) =~= Seq::<FocusRegion>::empty());
    while k < focus_regions.len()
        invariant
            k <= focus_regions.len(),
            first == earliest_region(focus_regions@.subrange(0, k as int), bound),
        decreases focus_regions.len() - k,
    {
        let ghost upto = focus_regions@.subrange(0, k + 1);
        assert(upto.last() == focus_regions@[k as int]);
        assert(upto.drop_last() == focus_regions@.subrange(0, k as int));
        if focus_regions[k].timestamp.0 < first {
            first = focus_regions[k].timestamp.0;
        }
        k += 1;
    }
    assert(focus_regions@.subrange(0, focus_regions.len() as int) == focus_regions@);
    Timestamp(first)
}

impl CameraEngine {
    /// The stored keyframes are in order of time.
    #[verifier::type_invariant]
    spec fn in_order(self) -> bool {
        is_ordered(self.keyframes@)
    }

    /// An engine with the given settings and no keyframes.
    pub fn new(settings: CameraSettings) -> (e: CameraEngine)
        ensures
            e@.settings == settings,
            e@.keyframes == Seq::<CameraKeyframe>::empty(),
    {
        CameraEngine { settings, keyframes: Vec::new() }
    }

    /// Generates the keyframes for a cursor track and focus regions, keeps
    /// them for later viewport queries and returns a copy. The keyframes are
    /// in order of time.
    pub fn generate_keyframes(
        &mut self,
        cursor_track: &[CursorTrackPoint],
        focus_regions: &[FocusRegion],
    ) -> (r: Vec<CameraKeyframe>)
        ensures
            r@ == keyframes_of(old(self)@.settings, cursor_track@, focus_regions@),
            final(self)@.keyframes == r@,
            final(self)@.settings == old(self)@.settings,
            is_ordered(r@),
    {
        let ghost settings = self.settings;
        let ghost seed = seed_keyframes(cursor_track@, focus_regions@);
        let mut keyframes: Vec<CameraKeyframe> = Vec::new();
        if cursor_track.len() > 0 || focus_regions.len() > 0 {
            keyframes.push(
                CameraKeyframe {
                    timestamp: first_time(cursor_track, focus_regions),
                    viewport: Viewport::default(),
                    easing: EasingType::EaseOut,
                },
            );
        }
        assert(keyframes@ =~= seed);

        let mut last_keyframe_ts: u64 = 0;
        let mut i: usize = 0;
        assert(cursor_track@.subrange(0, 0) =~= Seq::<CursorTrackPoint>::empty());
        while i < cursor_track.len()
            invariant
                i <= cursor_track.len(),
                settings == self.settings,
                cursor_pass(settings, seed, cursor_track@.subrange(0, i as int)) == (CursorPass {
                    keyframes: keyframes@,
                    last_time: last_keyframe_ts as int,
                }),
            decreases cursor_track.len() - i,
        {
            let point: CursorTrackPoint = cursor_track[i];
            let ghost upto = cursor_track@.subrange(0, i + 1);
            assert(upto.last() == point);
            assert(upto.drop_last() == cursor_track@.subrange(0, i as int));
            let time_since_last: u64 = point.timestamp.0.saturating_sub(last_keyframe_ts);
            let held: bool = time_since_last >= self.settings.min_hold_time_us;
            let near: bool = keyframes.len() > 0 && self.is_within_dead_zone(
                &keyframes[keyframes.len() - 1].viewport.center,
                &point.position,
            );
            if held && !near && point.confidence >= MIN_CURSOR_CONFIDENCE {
                let viewport: Viewport = self.calculate_viewport(&point);
                keyframes.push(
                    CameraKeyframe {
                        timestamp: point.timestamp,
                        viewport,
                        easing: EasingType::EaseInOut,
                    },
                );
                last_keyframe_ts = point.timestamp.0;
            }
            i += 1;
        }
        assert(cursor_track@.subrange(0, cursor_track.len() as int) == cursor_track@);

        let ghost from_cursor = keyframes@;
        let mut k: usize = 0;
        assert(focus_regions@.subrange(0, 0) =~= Seq::<FocusRegion>::empty());
        while k < focus_regions.len()
            invariant
                k <= focus_regions.len(),
                settings == self.settings,
                keyframes@ == from_cursor + focus_keyframes(
                    settings,
                    focus_regions@.subrange(0, k as int),
                ),
            decreases focus_regions.len() - k,
        {
            let region: FocusRegion = focus_regions[k];
            let ghost upto = focus_regions@.subrange(0, k + 1);
            assert(upto.last() == region);
            assert(upto.drop_last() == focus_regions@.subrange(0, k as int));
            if region.importance >= MIN_FOCUS_IMPORTANCE {
                let center: NormalizedCoord = region.bounds.center();
                let zoom: u32 = self.calculate_zoom_for_bounds(&region.bounds);
                keyframes.push(
                    CameraKeyframe {
                        timestamp: region.timestamp,
                        viewport: Viewport { center, zoom },
                        easing: EasingType::EaseOut,
                    },
                );
                assert(keyframes@ =~= from_cursor + focus_keyframes(settings, upto));
            }
            k += 1;
        }
        assert(focus_regions@.subrange(0, focus_regions.len() as int) == focus_regions@);

        let sorted: Vec<CameraKeyframe> = sort_by_time(&keyframes);
        let smooth: Vec<CameraKeyframe> = self.apply_smoothing(sorted.as_slice());
        proof {
            lemma_smoothed_keeps_times(settings, sorted@);
        }
        self.keyframes = copy_of(&smooth);
        smooth
    }

    /// The viewport at a time, between the keyframes that were generated last.
    pub fn get_viewport_at(&self, timestamp: Timestamp) -> (v: Viewport)
        ensures
            v == viewport_at(self@.keyframes, timestamp.0 as int),
    {
        let n: usize = self.keyframes.len();
        if n == 0 {
            return Viewport::default();
        }
        let mut found: bool = false;
        let mut at: usize = 0;
        let mut i: usize = 0;
        assert(self.keyframes@.subrange(0, 0) =~= Seq::<CameraKeyframe>::empty());
        while i < n
            invariant
                i <= n,
                n == self.keyframes@.len(),
                found ==> at < i && self.keyframes@[at as int].timestamp.0 <= timestamp.0,
                !found ==> at == 0,
                latest_at(self.keyframes@.subrange(0, i as int), timestamp.0 as int) == (if found {
                    at as int
                } else {
                    -1
                }),
            decreases n - i,
        {
            let ghost upto = self.keyframes@.subrange(0, i + 1);
            assert(upto.last() == self.keyframes@[i as int]);
            assert(upto.drop_last() == self.keyframes@.subrange(0, i as int));
            if self.keyframes[i].timestamp.0 <= timestamp.0 {
                found = true;
                at = i;
            }
            i += 1;
        }
        assert(self.keyframes@.subrange(0, n as int) == self.keyframes@);
        if !found || at + 1 >= n {
            return self.keyframes[at].viewport;
        }
        let prev: CameraKeyframe = self.keyframes[at];
        let next: CameraKeyframe = self.keyframes[at + 1];
        if timestamp.0 >= next.timestamp.0 {
            return next.viewport;
        }
        let whole: u64 = next.timestamp.0 - prev.timestamp.0;
        let gone: u64 = timestamp.0 - prev.timestamp.0;
        assert(gone * UNIT <= 0xffff_ffff_ffff_ffff * 1_000_000) by (nonlinear_arith)
            requires
                gone <= 0xffff_ffff_ffff_ffff,
                UNIT == 1_000_000,
        ;
        proof {
            lemma_round_div_part(gone as int, whole as int, UNIT as int);
        }
        let part: u32 = div_round(gone as u128 * UNIT as u128, whole as u128) as u32;
        let eased_part: u32 = apply_easing(part, next.easing);
        Viewport {
            center: NormalizedCoord::new(
                lerp(prev.viewport.center.x, next.viewport.center.x, eased_part),
                lerp(prev.viewport.center.y, next.viewport.center.y, eased_part),
            ),
            zoom: clamp_to(lerp(prev.viewport.zoom, next.viewport.zoom, eased_part), u32::MAX),
        }
    }

    /// Whether `target` lies in the dead zone around `center`.
    fn is_within_dead_zone(&self, center: &NormalizedCoord, target: &NormalizedCoord) -> (b: bool)
        ensures
            b == within_dead_zone(self.settings, *center, *target),
    {
        let radius: u128 = self.settings.dead_zone as u128;
        assert(0 <= radius * radius <= 0xffff_ffff * 0xffff_ffff) by (nonlinear_arith)
            requires
                0 <= radius <= 0xffff_ffff,
        ;
        distance_squared_of(center, target) < radius * radius
    }

    /// The viewport for a cursor point.
    fn calculate_viewport(&self, point: &CursorTrackPoint) -> (v: Viewport)
        ensures
            v == cursor_keyframe(self.settings, *point).viewport,
    {
        let zoom: u32 = match point.state {
            CursorState::Visible => self.settings.zoom_strength,
            CursorState::Inferred => {
                let strength: u128 = self.settings.zoom_strength as u128;
                div_round(strength * 4, 5) as u32
            },
            CursorState::Hidden => UNIT,
        };
        Viewport { center: point.position, zoom }
    }

    /// The zoom that fits `bounds`, and the zoom strength if that is less.
    fn calculate_zoom_for_bounds(&self, bounds: &NormalizedRect) -> (zoom: u32)
        ensures
            zoom == bounds_zoom(self.settings, *bounds),
    {
        let max_dim: u32 = if bounds.width >= bounds.height {
            bounds.width
        } else {
            bounds.height
        };
        if max_dim > 0 {
            let fit: u128 = div_round(UNIT as u128 * UNIT as u128, max_dim as u128);
            if fit < self.settings.zoom_strength as u128 {
                fit as u32
            } else {
                self.settings.zoom_strength
            }
        } else {
            UNIT
        }
    }

    /// The keyframe `cur` as it follows `prev` once the pan speed is enforced.
    fn limit_pan(&self, prev: &CameraKeyframe, cur: &CameraKeyframe) -> (r: CameraKeyframe)
        ensures
            r == smooth_step(self.settings, *prev, *cur),
    {
        let dt: u64 = cur.timestamp.0.saturating_sub(prev.timestamp.0);
        if dt == 0 {
            return *cur;
        }
        let from: NormalizedCoord = prev.viewport.center;
        let to: NormalizedCoord = cur.viewport.center;
        let far_squared: u128 = distance_squared_of(&from, &to);
        assert(self.settings.max_pan_speed * dt <= 0xffff_ffff * 0xffff_ffff_ffff_ffff)
            by (nonlinear_arith)
            requires
                self.settings.max_pan_speed <= 0xffff_ffff,
                dt <= 0xffff_ffff_ffff_ffff,
        ;
        let span: u128 = self.settings.max_pan_speed as u128 * dt as u128;
        let whole: u128 = UNIT as u128 * UNIT as u128;
        assert(far_squared * whole <= 2 * (0xffff_ffff * 0xffff_ffff) * 1_000_000_000_000)
            by (nonlinear_arith)
            requires
                far_squared <= 2 * (0xffff_ffff * 0xffff_ffff),
                whole == 1_000_000_000_000,
        ;
        if span >= 0x20_0000_0000_0000 {
            assert(span * span >= 0x20_0000_0000_0000 * 0x20_0000_0000_0000) by (nonlinear_arith)
                requires
                    span >= 0x20_0000_0000_0000,
            ;
            return *cur;
        }
        assert(span * span <= 0x20_0000_0000_0000 * 0x20_0000_0000_0000) by (nonlinear_arith)
            requires
                0 <= span <= 0x20_0000_0000_0000,
        ;
        if far_squared * whole <= span * span {
            return *cur;
        }
        let far: u64 = ceil_sqrt(far_squared);
        proof {
            lemma_span_below_far(far_squared as int, far as int, span as int);
        }
        CameraKeyframe {
            timestamp: cur.timestamp,
            viewport: Viewport {
                center: NormalizedCoord::new(
                    toward_of(from.x, to.x, span, far),
                    toward_of(from.y, to.y, span, far),
                ),
                zoom: cur.viewport.zoom,
            },
            easing: cur.easing,
        }
    }

    /// The keyframes with the pan speed enforced.
    fn apply_smoothing(&self, keyframes: &[CameraKeyframe]) -> (r: Vec<CameraKeyframe>)
        ensures
            r@ == smoothed(self.settings, keyframes@),
    {
        let mut out: Vec<CameraKeyframe> = Vec::with_capacity(keyframes.len());
        let mut i: usize = 0;
        assert(keyframes@.subrange(0, 0) =~= Seq::<CameraKeyframe>::empty());
        while i < keyframes.len()
            invariant
                i <= keyframes.len(),
                out@.len() == i,
                out@ == smoothed(self.settings, keyframes@.subrange(0, i as int)),
            decreases keyframes.len() - i,
        {
            let cur: CameraKeyframe = keyframes[i];
            let ghost upto = keyframes@.subrange(0, i + 1);
            assert(upto.last() == cur);
            assert(upto.drop_last() == keyframes@.subrange(0, i as int));
            if i == 0 {
                out.push(cur);
                assert(out@ =~= upto);
            } else {
                let next: CameraKeyframe = self.limit_pan(&out[i - 1], &cur);
                out.push(next);
            }
            i += 1;
        }
        assert(keyframes@.subrange(0, keyframes.len() as int) == keyframes@);
        out
    }
}

/// A way that is longer than the pan speed allows is longer than the span,
/// measured by its rounded-up length.
pub proof fn lemma_span_below_far(far_squared: int, far: int, span: int)
    requires
        0 <= span,
        is_ceil_sqrt(far_squared, far),
        far_squared * (UNIT * UNIT) > span * span,
    ensures
        0 < far,
        span < UNIT * far,
{
    let unit = UNIT as int;
    assert(far_squared > 0) by (nonlinear_arith)
        requires
            far_squared * (unit * unit) > span * span,
            span * span >= 0,
    ;
    assert(far > 0) by (nonlinear_arith)
        requires
            0 <= far,
            far_squared <= far * far,
            far_squared > 0,
    ;
    assert(span < unit * far) by (nonlinear_arith)
        requires
            0 <= span,
            0 < far,
            0 < unit,
            far_squared <= far * far,
            far_squared * (unit * unit) > span * span,
    ;
}

/// Enforcing the pan speed changes no time, no zoom and no easing, and adds
/// or removes no keyframe.
pub proof fn lemma_smoothed_keeps_times(settings: CameraSettings, s: Seq<CameraKeyframe>)
    ensures
        smoothed(settings, s).len() == s.len(),
        forall|i: int|
            0 <= i < s.len() ==> {
                &&& (#[trigger] smoothed(settings, s)[i]).timestamp == s[i].timestamp
                &&& smoothed(settings, s)[i].viewport.zoom == s[i].viewport.zoom
                &&& smoothed(settings, s)[i].easing == s[i].easing
            },
        is_ordered(s) ==> is_ordered(smoothed(settings, s)),
    decreases s.len(),
{
    if s.len() > 1 {
        let head = s.drop_last();
        lemma_smoothed_keeps_times(settings, head);
        let r = smoothed(settings, s);
        assert forall|i: int| 0 <= i < s.len() implies {
            &&& (#[trigger] r[i]).timestamp == s[i].timestamp
            &&& r[i].viewport.zoom == s[i].viewport.zoom
            &&& r[i].easing == s[i].easing
        } by {
            if i < head.len() {
                assert(r[i] == smoothed(settings, head)[i]);
                assert(head[i] == s[i]);
            }
        }
    }
    if is_ordered(s) {
        let r = smoothed(settings, s);
        assert forall|i: int, j: int| 0 <= i <= j < r.len() implies r[i].time() <= r[j].time() by {
            assert(r[i].timestamp == s[i].timestamp);
            assert(r[j].timestamp == s[j].timestamp);
            assert(s[i].time() <= s[j].time());
        }
    }
}

} // verus!
