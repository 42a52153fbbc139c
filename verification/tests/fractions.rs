//! The library against the same procedures carried out in fractions.

use engine_core::{
    CameraEngine, CameraSettings, CursorState, CursorTrackPoint, EasingType, FocusRegion,
    InferenceReason, NormalizedCoord, NormalizedRect, SpeedRamp, TimeRange, TimeRemapper,
    Timestamp, SPEED_MAX, SPEED_MIN, SPEED_UNIT, UNIT,
};

/// A small generator of numbers that look random and are the same every run.
struct Rolls(u64);

impl Rolls {
    fn roll(&mut self, below: u64) -> u64 {
        self.0 = self.0.wrapping_mul(6_364_136_223_846_793_005).wrapping_add(1_442_695_040_888_963_407);
        (self.0 >> 33) % below
    }
}

/// A remapper that reckons in fractions: speeds are single-precision factors,
/// and a segment's length is divided and rounded in double precision.
struct FractionalRemapper {
    cuts: Vec<(u64, u64)>,
    ramps: Vec<(u64, u64, f32)>,
    in_point: u64,
    out_point: u64,
}

impl FractionalRemapper {
    fn new(mut cuts: Vec<(u64, u64)>, mut ramps: Vec<(u64, u64, f32)>, in_point: u64, out_point: u64) -> Self {
        cuts.sort_by_key(|c| c.0);
        ramps.sort_by_key(|r| r.0);
        FractionalRemapper { cuts, ramps, in_point, out_point }
    }

    fn cut_at(&self, t: u64) -> Option<(u64, u64)> {
        self.cuts.iter().copied().find(|c| c.0 <= t && t < c.1)
    }

    fn speed_at(&self, t: u64) -> f32 {
        self.ramps.iter().find(|r| r.0 <= t && t < r.1).map(|r| r.2).unwrap_or(1.0)
    }

    fn next_boundary(&self, t: u64) -> u64 {
        let mut next = self.out_point;
        for c in &self.cuts {
            if c.0 > t && c.0 < next {
                next = c.0;
            }
        }
        for r in &self.ramps {
            if r.0 > t && r.0 < next {
                next = r.0;
            }
            if r.1 > t && r.1 < next {
                next = r.1;
            }
        }
        next
    }

    fn skip_cuts(&self, t: u64) -> u64 {
        let mut current = t;
        while let Some(cut) = self.cut_at(current) {
            current = cut.1;
        }
        current.min(self.out_point)
    }

    fn export_duration(&self) -> u64 {
        let mut total = 0u64;
        let mut t = self.in_point;
        while t < self.out_point {
            if let Some(cut) = self.cut_at(t) {
                t = cut.1.min(self.out_point);
                continue;
            }
            let next = self.next_boundary(t);
            total += ((next - t) as f64 / self.speed_at(t) as f64).round() as u64;
            t = next;
        }
        total
    }

    fn to_source_time(&self, export_time: u64) -> u64 {
        let mut t = self.skip_cuts(self.in_point);
        let mut remaining = export_time;
        while remaining > 0 && t < self.out_point {
            let next = self.next_boundary(t);
            let speed = self.speed_at(t);
            let segment = ((next - t) as f64 / speed as f64).round() as u64;
            if remaining < segment {
                t += (remaining as f64 * speed as f64).round() as u64;
                remaining = 0;
            } else {
                remaining -= segment;
                t = self.skip_cuts(next);
            }
        }
        t.min(self.out_point)
    }
}

#[test]
fn remapper_agrees_with_the_procedure_in_fractions() {
    let mut rolls = Rolls(11);
    for _ in 0..400 {
        let span = 1 + rolls.roll(3_000);
        let mut cuts = Vec::new();
        for _ in 0..rolls.roll(5) {
            let a = rolls.roll(span);
            cuts.push((a, a + rolls.roll(span / 2 + 1)));
        }
        let mut ramps = Vec::new();
        for _ in 0..rolls.roll(5) {
            let a = rolls.roll(span);
            // Multiples of eight units are single-precision factors exactly.
            let units = (SPEED_MIN + 8 * rolls.roll(((SPEED_MAX - SPEED_MIN) / 8) as u64 + 1) as u32)
                .min(SPEED_MAX);
            ramps.push((a, a + rolls.roll(span / 2 + 1), units));
        }
        let in_point = rolls.roll(span);
        let out_point = in_point + rolls.roll(span - in_point + 1);

        let library = TimeRemapper::new(
            cuts.iter()
                .map(|c| TimeRange::new(Timestamp::from_micros(c.0), Timestamp::from_micros(c.1)))
                .collect(),
            ramps
                .iter()
                .map(|r| {
                    SpeedRamp::new(
                        TimeRange::new(Timestamp::from_micros(r.0), Timestamp::from_micros(r.1)),
                        r.2,
                    )
                })
                .collect(),
            Timestamp::from_micros(in_point),
            Timestamp::from_micros(out_point),
        );
        let fractional = FractionalRemapper::new(
            cuts.clone(),
            ramps.iter().map(|r| (r.0, r.1, (r.2 as f64 / SPEED_UNIT as f64) as f32)).collect(),
            in_point,
            out_point,
        );
        for r in &fractional.ramps {
            assert_eq!((r.2 as f64 * SPEED_UNIT as f64) as u32 % 8, 0);
        }

        let duration = library.export_duration().as_micros();
        assert_eq!(duration, fractional.export_duration());
        for e in 0..=duration + 3 {
            assert_eq!(
                library.to_source_time(Timestamp::from_micros(e)).as_micros(),
                fractional.to_source_time(e),
                "export time {}",
                e
            );
        }
        for t in 0..span {
            let t = Timestamp::from_micros(t);
            assert_eq!(library.is_cut(t), fractional.cut_at(t.as_micros()).is_some());
            assert_eq!(
                library.speed_at(t) as f64 / SPEED_UNIT as f64,
                fractional.speed_at(t.as_micros()) as f64
            );
        }
    }
}

/// A keyframe in fractions.
#[derive(Clone, Debug)]
struct FractionalKeyframe {
    time: u64,
    x: f64,
    y: f64,
    zoom: f64,
    easing: EasingType,
}

fn fraction(v: u32) -> f64 {
    v as f64 / UNIT as f64
}

/// The keyframes of a track and regions, reckoned in double precision.
fn fractional_keyframes(
    settings: &CameraSettings,
    track: &[CursorTrackPoint],
    regions: &[FocusRegion],
) -> Vec<FractionalKeyframe> {
    let dead_zone = fraction(settings.dead_zone);
    let strength = fraction(settings.zoom_strength);
    let max_pan = fraction(settings.max_pan_speed);
    let mut keyframes: Vec<FractionalKeyframe> = Vec::new();
    let earliest = track
        .iter()
        .map(|p| p.timestamp.as_micros())
        .chain(regions.iter().map(|r| r.timestamp.as_micros()))
        .min();
    if let Some(time) = earliest {
        keyframes.push(FractionalKeyframe { time, x: 0.5, y: 0.5, zoom: 1.0, easing: EasingType::EaseOut });
    }
    let mut last = 0u64;
    for p in track {
        if p.timestamp.as_micros().saturating_sub(last) < settings.min_hold_time_us {
            continue;
        }
        let (px, py) = (fraction(p.position.x), fraction(p.position.y));
        if let Some(k) = keyframes.last() {
            if ((k.x - px).powi(2) + (k.y - py).powi(2)).sqrt() < dead_zone {
                continue;
            }
        }
        if p.confidence < 70 {
            continue;
        }
        let zoom = match p.state {
            CursorState::Visible => strength,
            CursorState::Inferred => strength * 0.8,
            CursorState::Hidden => 1.0,
        };
        keyframes.push(FractionalKeyframe {
            time: p.timestamp.as_micros(),
            x: px,
            y: py,
            zoom,
            easing: EasingType::EaseInOut,
        });
        last = p.timestamp.as_micros();
    }
    for r in regions {
        if fraction(r.importance) >= 0.8 {
            let (w, h) = (fraction(r.bounds.width), fraction(r.bounds.height));
            let side = w.max(h);
            keyframes.push(FractionalKeyframe {
                time: r.timestamp.as_micros(),
                x: (fraction(r.bounds.x) + w / 2.0).clamp(0.0, 1.0),
                y: (fraction(r.bounds.y) + h / 2.0).clamp(0.0, 1.0),
                zoom: if side > 0.0 { (1.0 / side).min(strength) } else { 1.0 },
                easing: EasingType::EaseOut,
            });
        }
    }
    keyframes.sort_by_key(|k| k.time);
    for i in 1..keyframes.len() {
        let (px, py) = (keyframes[i - 1].x, keyframes[i - 1].y);
        let (dx, dy) = (keyframes[i].x - px, keyframes[i].y - py);
        let seconds = (keyframes[i].time - keyframes[i - 1].time) as f64 / 1e6;
        if seconds > 0.0 {
            let speed = (dx * dx + dy * dy).sqrt() / seconds;
            if speed > max_pan {
                let scale = max_pan / speed;
                keyframes[i].x = (px + dx * scale).clamp(0.0, 1.0);
                keyframes[i].y = (py + dy * scale).clamp(0.0, 1.0);
            }
        }
    }
    keyframes
}

fn fractional_easing(t: f64, easing: EasingType) -> f64 {
    match easing {
        EasingType::Linear => t,
        EasingType::EaseOut => 1.0 - (1.0 - t).powi(3),
        EasingType::EaseInOut => {
            if t < 0.5 {
                4.0 * t * t * t
            } else {
                1.0 - (-2.0 * t + 2.0).powi(3) / 2.0
            }
        }
        EasingType::Spring => {
            if t == 0.0 {
                0.0
            } else if t == 1.0 {
                1.0
            } else {
                2f64.powf(-10.0 * t) * ((t * 10.0 - 0.75) * (2.0 * std::f64::consts::PI) / 3.0).sin() + 1.0
            }
        }
    }
}

/// The viewport at a time between keyframes, reckoned in double precision.
fn fractional_viewport(keyframes: &[FractionalKeyframe], t: u64) -> (f64, f64, f64) {
    if keyframes.is_empty() {
        return (0.5, 0.5, 1.0);
    }
    let mut prev = &keyframes[0];
    let mut next = &keyframes[0];
    for (i, k) in keyframes.iter().enumerate() {
        if k.time <= t {
            prev = k;
            next = keyframes.get(i + 1).unwrap_or(k);
        }
    }
    if t >= next.time {
        return (next.x, next.y, next.zoom);
    }
    let whole = next.time - prev.time;
    if whole == 0 {
        return (prev.x, prev.y, prev.zoom);
    }
    let s = fractional_easing((t - prev.time) as f64 / whole as f64, next.easing);
    let lerp = |a: f64, b: f64| a + (b - a) * s;
    (lerp(prev.x, next.x).clamp(0.0, 1.0), lerp(prev.y, next.y).clamp(0.0, 1.0), lerp(prev.zoom, next.zoom))
}

fn random_inputs(rolls: &mut Rolls) -> (CameraSettings, Vec<CursorTrackPoint>, Vec<FocusRegion>) {
    let settings = CameraSettings {
        min_hold_time_us: rolls.roll(800_000),
        max_pan_speed: 50_000 + rolls.roll(2_000_000) as u32,
        dead_zone: rolls.roll(150_000) as u32,
        zoom_strength: 1_000_000 + rolls.roll(2_000_000) as u32,
    };
    let mut time = rolls.roll(1_000_000);
    let mut track = Vec::new();
    for _ in 0..rolls.roll(12) {
        time += rolls.roll(900_000);
        track.push(CursorTrackPoint {
            timestamp: Timestamp::from_micros(time),
            position: NormalizedCoord::new(rolls.roll(1_000_001) as i64, rolls.roll(1_000_001) as i64),
            state: match rolls.roll(3) {
                0 => CursorState::Visible,
                1 => CursorState::Inferred,
                _ => CursorState::Hidden,
            },
            confidence: 40 + rolls.roll(61) as u8,
            reason: InferenceReason::MotionTracking,
        });
    }
    let mut regions = Vec::new();
    for _ in 0..rolls.roll(6) {
        regions.push(FocusRegion {
            timestamp: Timestamp::from_micros(rolls.roll(time + 1_000_000)),
            bounds: NormalizedRect::new(
                rolls.roll(900_000) as u32,
                rolls.roll(900_000) as u32,
                rolls.roll(600_000) as u32,
                rolls.roll(600_000) as u32,
            ),
            importance: 600_000 + rolls.roll(400_001) as u32,
        });
    }
    (settings, track, regions)
}

#[test]
fn keyframes_agree_with_the_formulas_in_fractions() {
    let mut rolls = Rolls(21);
    let mut compared = 0;
    for _ in 0..500 {
        let (settings, track, regions) = random_inputs(&mut rolls);
        let mut engine = CameraEngine::new(settings);
        let keyframes = engine.generate_keyframes(&track, &regions);
        let expected = fractional_keyframes(&settings, &track, &regions);
        assert_eq!(keyframes.len(), expected.len());
        for (got, want) in keyframes.iter().zip(&expected) {
            assert_eq!(got.timestamp.as_micros(), want.time);
            assert_eq!(got.easing, want.easing);
            assert!((fraction(got.viewport.center.x) - want.x).abs() < 4e-6, "{:?} {:?}", got, want);
            assert!((fraction(got.viewport.center.y) - want.y).abs() < 4e-6, "{:?} {:?}", got, want);
            assert!((fraction(got.viewport.zoom) - want.zoom).abs() < 2e-6, "{:?} {:?}", got, want);
            compared += 1;
        }
    }
    assert!(compared > 1_000);
}

#[test]
fn viewports_agree_with_the_formulas_in_fractions() {
    let mut rolls = Rolls(31);
    for _ in 0..300 {
        let (settings, track, regions) = random_inputs(&mut rolls);
        let mut engine = CameraEngine::new(settings);
        let keyframes = engine.generate_keyframes(&track, &regions);
        // The library's own keyframes, so that only the blending is compared.
        let fractional: Vec<FractionalKeyframe> = keyframes
            .iter()
            .map(|k| FractionalKeyframe {
                time: k.timestamp.as_micros(),
                x: fraction(k.viewport.center.x),
                y: fraction(k.viewport.center.y),
                zoom: fraction(k.viewport.zoom),
                easing: k.easing,
            })
            .collect();
        let end = keyframes.last().map(|k| k.timestamp.as_micros()).unwrap_or(0) + 10;
        for _ in 0..40 {
            let t = rolls.roll(end + 1);
            let got = engine.get_viewport_at(Timestamp::from_micros(t));
            let want = fractional_viewport(&fractional, t);
            assert!((fraction(got.center.x) - want.0).abs() < 1e-5, "{} {:?} {:?}", t, got, want);
            assert!((fraction(got.center.y) - want.1).abs() < 1e-5, "{} {:?} {:?}", t, got, want);
            assert!((fraction(got.zoom) - want.2).abs() < 1e-5, "{} {:?} {:?}", t, got, want);
        }
    }
}

#[test]
fn easing_agrees_with_the_formulas_in_fractions() {
    for t in (0..=UNIT).step_by(499) {
        for easing in [EasingType::Linear, EasingType::EaseOut, EasingType::EaseInOut] {
            let got = fraction(engine_core::camera::apply_easing(t, easing));
            assert!((got - fractional_easing(fraction(t), easing)).abs() < 1e-6);
        }
        let got = fraction(engine_core::camera::apply_easing(t, EasingType::Spring));
        assert!((got - fractional_easing(fraction(t), EasingType::Spring)).abs() < 1e-3);
    }
}
