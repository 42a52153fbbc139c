use engine_core::camera::{apply_easing, lerp};
use engine_core::{
    CameraEngine, CameraKeyframe, CameraSettings, CursorState, CursorTrackPoint, EasingType,
    FocusRegion, InferenceReason, NormalizedCoord, NormalizedRect, Timestamp, Viewport, UNIT,
};

/// A fraction as a number of millionths.
fn millionths(x: f64) -> u32 {
    (x * 1_000_000.0).round() as u32
}

fn coord(x: f64, y: f64) -> NormalizedCoord {
    NormalizedCoord::new(millionths(x) as i64, millionths(y) as i64)
}

fn point(t: u64, x: f64, y: f64, state: CursorState, confidence: u8) -> CursorTrackPoint {
    CursorTrackPoint {
        timestamp: Timestamp::from_micros(t),
        position: coord(x, y),
        state,
        confidence,
        reason: InferenceReason::DirectInput,
    }
}

fn region(t: u64, x: f64, y: f64, w: f64, h: f64, importance: f64) -> FocusRegion {
    FocusRegion {
        timestamp: Timestamp::from_micros(t),
        bounds: NormalizedRect::new(millionths(x), millionths(y), millionths(w), millionths(h)),
        importance: millionths(importance),
    }
}

fn times(keyframes: &[CameraKeyframe]) -> Vec<u64> {
    keyframes.iter().map(|k| k.timestamp.as_micros()).collect()
}

#[test]
fn generates_initial_keyframe() {
    let mut engine = CameraEngine::new(CameraSettings::default());
    let cursor_track = vec![CursorTrackPoint {
        timestamp: Timestamp::from_micros(1000),
        position: NormalizedCoord::new(500_000, 500_000),
        state: CursorState::Visible,
        confidence: 100,
        reason: InferenceReason::DirectInput,
    }];

    let keyframes = engine.generate_keyframes(&cursor_track, &[]);
    assert!(!keyframes.is_empty());
}

#[test]
fn easing_bounds() {
    for easing in [
        EasingType::Linear,
        EasingType::EaseOut,
        EasingType::EaseInOut,
        EasingType::Spring,
    ] {
        let start = apply_easing(millionths(0.0), easing);
        let end = apply_easing(millionths(1.0), easing);
        assert!(start <= millionths(0.1), "Easing start should be ~0");
        assert!(end >= millionths(0.9) && end <= millionths(1.1), "Easing end should be ~1");
    }
}

#[test]
fn respects_min_hold_time() {
    let settings = CameraSettings { min_hold_time_us: 500_000, ..Default::default() };
    let mut engine = CameraEngine::new(settings);

    let cursor_track = vec![
        CursorTrackPoint {
            timestamp: Timestamp::from_micros(0),
            position: NormalizedCoord::new(200_000, 200_000),
            state: CursorState::Visible,
            confidence: 100,
            reason: InferenceReason::DirectInput,
        },
        CursorTrackPoint {
            timestamp: Timestamp::from_micros(100_000),
            position: NormalizedCoord::new(800_000, 800_000),
            state: CursorState::Visible,
            confidence: 100,
            reason: InferenceReason::DirectInput,
        },
    ];

    let keyframes = engine.generate_keyframes(&cursor_track, &[]);
    assert!(keyframes.len() <= 2);
}

#[test]
fn min_hold_drops_both_early_points_and_leaves_the_seed() {
    let mut engine = CameraEngine::new(CameraSettings::default());
    let track = vec![
        point(0, 0.2, 0.2, CursorState::Visible, 100),
        point(100_000, 0.8, 0.8, CursorState::Visible, 100),
    ];
    let keyframes = engine.generate_keyframes(&track, &[]);
    assert_eq!(
        keyframes,
        vec![CameraKeyframe {
            timestamp: Timestamp::from_micros(0),
            viewport: Viewport::default(),
            easing: EasingType::EaseOut,
        }]
    );
}

#[test]
fn empty_inputs_give_no_keyframes_and_the_whole_frame() {
    let mut engine = CameraEngine::new(CameraSettings::default());
    let keyframes = engine.generate_keyframes(&[], &[]);
    assert!(keyframes.is_empty());
    assert_eq!(engine.get_viewport_at(Timestamp::from_micros(123)), Viewport::default());
    let fresh = CameraEngine::new(CameraSettings::default());
    assert_eq!(fresh.get_viewport_at(Timestamp::from_micros(0)), Viewport::default());
}

#[test]
fn seed_takes_the_time_of_the_first_region_without_cursor_points() {
    let mut engine = CameraEngine::new(CameraSettings::default());
    let regions = vec![region(7_000, 0.1, 0.1, 0.2, 0.2, 0.5)];
    let keyframes = engine.generate_keyframes(&[], &regions);
    assert_eq!(keyframes.len(), 1);
    assert_eq!(keyframes[0].timestamp.as_micros(), 7_000);
    assert_eq!(keyframes[0].viewport, Viewport::default());
    assert_eq!(keyframes[0].easing, EasingType::EaseOut);
}

#[test]
fn cursor_keyframes_zoom_by_state() {
    let settings = CameraSettings {
        min_hold_time_us: 0,
        max_pan_speed: u32::MAX,
        dead_zone: 0,
        zoom_strength: 1_500_000,
    };
    let mut engine = CameraEngine::new(settings);
    let track = vec![
        point(1_000_000, 0.1, 0.1, CursorState::Visible, 100),
        point(2_000_000, 0.2, 0.2, CursorState::Inferred, 100),
        point(3_000_000, 0.3, 0.3, CursorState::Hidden, 100),
    ];
    let keyframes = engine.generate_keyframes(&track, &[]);
    assert_eq!(keyframes.len(), 4);
    assert_eq!(keyframes[1].viewport, Viewport { center: coord(0.1, 0.1), zoom: 1_500_000 });
    assert_eq!(keyframes[2].viewport, Viewport { center: coord(0.2, 0.2), zoom: 1_200_000 });
    assert_eq!(keyframes[3].viewport, Viewport { center: coord(0.3, 0.3), zoom: 1_000_000 });
    assert!(keyframes[1..].iter().all(|k| k.easing == EasingType::EaseInOut));
}

#[test]
fn low_confidence_points_are_dropped() {
    let settings = CameraSettings { min_hold_time_us: 0, dead_zone: 0, ..Default::default() };
    let mut engine = CameraEngine::new(settings);
    let track = vec![
        point(1_000_000, 0.1, 0.1, CursorState::Visible, 69),
        point(2_000_000, 0.2, 0.2, CursorState::Visible, 70),
    ];
    let keyframes = engine.generate_keyframes(&track, &[]);
    assert_eq!(times(&keyframes), vec![1_000_000, 2_000_000]);
    assert_eq!(keyframes[0].viewport, Viewport::default());
}

#[test]
fn dead_zone_ends_at_its_radius() {
    let settings = CameraSettings {
        min_hold_time_us: 0,
        max_pan_speed: u32::MAX,
        dead_zone: 50_000,
        zoom_strength: 1_500_000,
    };
    // 0.03 and 0.04 from the seed's centre: a distance of exactly 0.05.
    let mut engine = CameraEngine::new(settings);
    let on_the_rim = vec![point(1_000_000, 0.53, 0.54, CursorState::Visible, 100)];
    let keyframes = engine.generate_keyframes(&on_the_rim, &[]);
    assert_eq!(times(&keyframes), vec![1_000_000, 1_000_000]);
    assert_eq!(keyframes[1].viewport.center, coord(0.53, 0.54));
    // A millionth closer: inside.
    let inside = vec![point(1_000_000, 0.53, 0.539999, CursorState::Visible, 100)];
    let keyframes = engine.generate_keyframes(&inside, &[]);
    assert_eq!(keyframes.len(), 1);
    assert_eq!(keyframes[0].viewport, Viewport::default());
}

#[test]
fn dead_zone_is_measured_from_the_last_keyframe() {
    let settings = CameraSettings {
        min_hold_time_us: 0,
        max_pan_speed: u32::MAX,
        dead_zone: 50_000,
        zoom_strength: 1_500_000,
    };
    let mut engine = CameraEngine::new(settings);
    let track = vec![
        point(1_000_000, 0.9, 0.9, CursorState::Visible, 100),
        // Far from the seed's centre, but next to the keyframe just made.
        point(2_000_000, 0.92, 0.91, CursorState::Visible, 100),
        // Next to the seed's centre, far from the last keyframe.
        point(3_000_000, 0.51, 0.5, CursorState::Visible, 100),
    ];
    let keyframes = engine.generate_keyframes(&track, &[]);
    assert_eq!(times(&keyframes), vec![1_000_000, 1_000_000, 3_000_000]);
    assert_eq!(keyframes[2].viewport.center, coord(0.51, 0.5));
}

#[test]
fn focus_regions_zoom_to_fit_up_to_the_zoom_strength() {
    let mut engine = CameraEngine::new(CameraSettings {
        max_pan_speed: u32::MAX,
        ..Default::default()
    });
    let regions = vec![
        region(1_000, 0.1, 0.1, 0.8, 0.4, 1.0),
        region(2_000, 0.425, 0.425, 0.15, 0.15, 0.8),
        region(3_000, 0.5, 0.5, 0.0, 0.0, 0.9),
        region(4_000, 0.0, 0.0, 0.3, 0.3, 0.799999),
    ];
    let keyframes = engine.generate_keyframes(&[], &regions);
    assert_eq!(times(&keyframes), vec![1_000, 1_000, 2_000, 3_000]);
    assert_eq!(keyframes[1].viewport, Viewport { center: coord(0.5, 0.3), zoom: 1_250_000 });
    assert_eq!(keyframes[2].viewport, Viewport { center: coord(0.5, 0.5), zoom: 1_500_000 });
    assert_eq!(keyframes[3].viewport, Viewport { center: coord(0.5, 0.5), zoom: UNIT });
    assert!(keyframes[1..].iter().all(|k| k.easing == EasingType::EaseOut));
}

#[test]
fn keyframes_come_out_in_order_of_time() {
    let settings = CameraSettings { min_hold_time_us: 0, dead_zone: 0, ..Default::default() };
    let mut engine = CameraEngine::new(settings);
    let track = vec![
        point(5_000_000, 0.1, 0.9, CursorState::Visible, 100),
        point(9_000_000, 0.9, 0.1, CursorState::Visible, 100),
    ];
    let regions = vec![
        region(7_000_000, 0.2, 0.2, 0.2, 0.2, 1.0),
        region(1_000_000, 0.6, 0.6, 0.2, 0.2, 1.0),
        region(5_000_000, 0.0, 0.0, 0.2, 0.2, 1.0),
    ];
    let keyframes = engine.generate_keyframes(&track, &regions);
    assert_eq!(
        times(&keyframes),
        vec![1_000_000, 1_000_000, 5_000_000, 5_000_000, 7_000_000, 9_000_000]
    );
    // Keyframes of one time keep the order in which they were made: the
    // opening keyframe before the region's, the cursor's before the region's.
    assert_eq!(keyframes[0].viewport, Viewport::default());
    assert_eq!(keyframes[1].viewport.zoom, 1_500_000);
    assert_eq!(keyframes[2].easing, EasingType::EaseInOut);
    assert_eq!(keyframes[3].easing, EasingType::EaseOut);
}

#[test]
fn the_opening_keyframe_stands_at_the_earliest_time() {
    let mut engine = CameraEngine::new(CameraSettings::default());
    let track = vec![
        point(5_000, 0.1, 0.1, CursorState::Visible, 100),
        point(3_000, 0.2, 0.2, CursorState::Visible, 100),
    ];
    let keyframes = engine.generate_keyframes(&track, &[]);
    assert_eq!(keyframes[0].timestamp.as_micros(), 3_000);
    assert_eq!(keyframes[0].viewport, Viewport::default());

    let regions = vec![region(9_000, 0.1, 0.1, 0.2, 0.2, 1.0), region(1_000, 0.1, 0.1, 0.2, 0.2, 0.1)];
    let keyframes = engine.generate_keyframes(&track, &regions);
    assert_eq!(keyframes[0].timestamp.as_micros(), 1_000);
    assert_eq!(keyframes[0].viewport, Viewport::default());
    assert_eq!(keyframes[0].easing, EasingType::EaseOut);

    let late = vec![point(u64::MAX, 0.1, 0.1, CursorState::Visible, 100)];
    let keyframes = engine.generate_keyframes(&late, &[]);
    assert_eq!(keyframes[0].timestamp.as_micros(), u64::MAX);
}

#[test]
fn pan_speed_is_enforced_between_keyframes() {
    let settings = CameraSettings {
        min_hold_time_us: 0,
        max_pan_speed: 500_000,
        dead_zone: 0,
        zoom_strength: 1_500_000,
    };
    let mut engine = CameraEngine::new(settings);
    // 0.3 right and 0.4 down of the seed's centre, half a second later:
    // a way of 0.5 where 0.25 is allowed.
    let track = vec![
        point(0, 0.5, 0.5, CursorState::Visible, 100),
        point(500_000, 0.8, 0.9, CursorState::Visible, 100),
    ];
    let keyframes = engine.generate_keyframes(&track, &[]);
    assert_eq!(keyframes.len(), 3);
    assert_eq!(keyframes[0].viewport.center, coord(0.5, 0.5));
    assert_eq!(keyframes[1].viewport.center, coord(0.5, 0.5));
    assert_eq!(keyframes[2].viewport.center, coord(0.65, 0.7));
    assert_eq!(keyframes[2].viewport.zoom, 1_500_000);
    assert_eq!(keyframes[2].timestamp.as_micros(), 500_000);
}

#[test]
fn pan_speed_bound_holds_of_every_pair() {
    let settings = CameraSettings {
        min_hold_time_us: 0,
        max_pan_speed: 123_457,
        dead_zone: 0,
        zoom_strength: 1_500_000,
    };
    let mut engine = CameraEngine::new(settings);
    let mut track = Vec::new();
    let mut x: u64 = 12_345;
    for i in 0..40u64 {
        x = (x * 1_103_515_245 + 12_345) % 2_147_483_648;
        let px = (x % 1_000_001) as f64 / 1e6;
        x = (x * 1_103_515_245 + 12_345) % 2_147_483_648;
        let py = (x % 1_000_001) as f64 / 1e6;
        track.push(point(i * 37_003 + (x % 5) * 1_000, px, py, CursorState::Visible, 100));
    }
    let keyframes = engine.generate_keyframes(&track, &[]);
    assert!(keyframes.len() > 10);
    for pair in keyframes.windows(2) {
        let dt = (pair[1].timestamp.as_micros() - pair[0].timestamp.as_micros()) as u128;
        if dt > 0 {
            let dx = pair[0].viewport.center.x.abs_diff(pair[1].viewport.center.x) as u128;
            let dy = pair[0].viewport.center.y.abs_diff(pair[1].viewport.center.y) as u128;
            let allowed = settings.max_pan_speed as u128 * dt;
            assert!((dx * dx + dy * dy) * 1_000_000_000_000 <= allowed * allowed);
        }
    }
}

#[test]
fn a_pan_speed_of_zero_holds_the_camera_still() {
    let settings = CameraSettings {
        min_hold_time_us: 0,
        max_pan_speed: 0,
        dead_zone: 0,
        zoom_strength: 2_000_000,
    };
    let mut engine = CameraEngine::new(settings);
    let track = vec![
        point(1_000, 0.1, 0.1, CursorState::Visible, 100),
        point(2_000, 0.9, 0.9, CursorState::Visible, 100),
    ];
    let keyframes = engine.generate_keyframes(&track, &[]);
    assert_eq!(keyframes.len(), 3);
    // The first cursor keyframe shares the seed's time, so it is not moved.
    assert_eq!(keyframes[1].viewport.center, coord(0.1, 0.1));
    assert_eq!(keyframes[2].viewport.center, coord(0.1, 0.1));
    assert_eq!(keyframes[2].viewport.zoom, 2_000_000);
}

#[test]
fn generate_is_repeatable_and_replaces_the_stored_keyframes() {
    let mut engine = CameraEngine::new(CameraSettings::default());
    let track = vec![
        point(1_000_000, 0.2, 0.2, CursorState::Visible, 100),
        point(3_000_000, 0.8, 0.8, CursorState::Inferred, 90),
    ];
    let first = engine.generate_keyframes(&track, &[]);
    let second = engine.generate_keyframes(&track, &[]);
    assert_eq!(first, second);
    let _ = engine.generate_keyframes(&[], &[]);
    assert_eq!(engine.get_viewport_at(Timestamp::from_micros(2_000_000)), Viewport::default());
}

#[test]
fn viewport_at_holds_before_the_first_and_after_the_last_keyframe() {
    let settings = CameraSettings {
        min_hold_time_us: 0,
        max_pan_speed: u32::MAX,
        dead_zone: 0,
        zoom_strength: 2_000_000,
    };
    let mut engine = CameraEngine::new(settings);
    let track = vec![
        point(1_000_000, 0.5, 0.5, CursorState::Hidden, 0),
        point(3_000_000, 0.7, 0.3, CursorState::Visible, 100),
    ];
    let keyframes = engine.generate_keyframes(&track, &[]);
    assert_eq!(times(&keyframes), vec![1_000_000, 3_000_000]);
    let last = Viewport { center: coord(0.7, 0.3), zoom: 2_000_000 };
    assert_eq!(engine.get_viewport_at(Timestamp::from_micros(0)), Viewport::default());
    assert_eq!(engine.get_viewport_at(Timestamp::from_micros(1_000_000)), Viewport::default());
    assert_eq!(engine.get_viewport_at(Timestamp::from_micros(3_000_000)), last);
    assert_eq!(engine.get_viewport_at(Timestamp::from_micros(u64::MAX)), last);
}

#[test]
fn viewport_at_moves_along_the_curve_of_the_next_keyframe() {
    let settings = CameraSettings {
        min_hold_time_us: 0,
        max_pan_speed: u32::MAX,
        dead_zone: 0,
        zoom_strength: 2_000_000,
    };
    let mut engine = CameraEngine::new(settings);
    let track = vec![
        point(1_000_000, 0.5, 0.5, CursorState::Hidden, 0),
        point(3_000_000, 0.7, 0.3, CursorState::Visible, 100),
    ];
    let _ = engine.generate_keyframes(&track, &[]);
    // Half of the time, ease-in-out: half of the way.
    assert_eq!(
        engine.get_viewport_at(Timestamp::from_micros(2_000_000)),
        Viewport { center: coord(0.6, 0.4), zoom: 1_500_000 }
    );
    // A quarter of the time, ease-in-out: 4 * (1/4)^3 = 1/16 of the way.
    assert_eq!(
        engine.get_viewport_at(Timestamp::from_micros(1_500_000)),
        Viewport { center: coord(0.5125, 0.4875), zoom: 1_062_500 }
    );
    // Three quarters of the time: 1 - (1/2)^3 / 2 = 15/16 of the way.
    assert_eq!(
        engine.get_viewport_at(Timestamp::from_micros(2_500_000)),
        Viewport { center: coord(0.6875, 0.3125), zoom: 1_937_500 }
    );
}

#[test]
fn viewport_at_eases_out_into_a_focus_keyframe() {
    let mut engine = CameraEngine::new(CameraSettings {
        max_pan_speed: u32::MAX,
        ..Default::default()
    });
    let regions = vec![
        region(0, 0.0, 0.0, 1.0, 1.0, 0.0),
        region(2_000_000, 0.6, 0.6, 0.4, 0.4, 1.0),
    ];
    let keyframes = engine.generate_keyframes(&[], &regions);
    assert_eq!(times(&keyframes), vec![0, 2_000_000]);
    assert_eq!(keyframes[1].viewport, Viewport { center: coord(0.8, 0.8), zoom: 1_500_000 });
    // Half of the time, ease-out: 1 - (1/2)^3 = 7/8 of the way.
    assert_eq!(
        engine.get_viewport_at(Timestamp::from_micros(1_000_000)),
        Viewport { center: coord(0.7625, 0.7625), zoom: 1_437_500 }
    );
}

#[test]
fn easing_curves_at_exact_points() {
    assert_eq!(apply_easing(250_000, EasingType::Linear), 250_000);
    assert_eq!(apply_easing(500_000, EasingType::EaseOut), 875_000);
    assert_eq!(apply_easing(250_000, EasingType::EaseOut), 578_125);
    assert_eq!(apply_easing(250_000, EasingType::EaseInOut), 62_500);
    assert_eq!(apply_easing(500_000, EasingType::EaseInOut), 500_000);
    assert_eq!(apply_easing(750_000, EasingType::EaseInOut), 937_500);
    assert_eq!(apply_easing(499_999, EasingType::EaseInOut), 499_997);
    for easing in [
        EasingType::Linear,
        EasingType::EaseOut,
        EasingType::EaseInOut,
        EasingType::Spring,
    ] {
        assert_eq!(apply_easing(0, easing), 0);
        assert_eq!(apply_easing(UNIT, easing), UNIT);
    }
}

#[test]
fn spring_follows_its_curve() {
    let spring = |u: f64| 2f64.powf(-10.0 * u) * ((10.0 * u - 0.75) * (2.0 * std::f64::consts::PI) / 3.0).sin() + 1.0;
    // At a sample the value is the curve's, to the nearest millionth.
    assert_eq!(apply_easing(100_000, EasingType::Spring), millionths(spring(0.1)));
    assert_eq!(apply_easing(100_000, EasingType::Spring), 1_250_000);
    assert_eq!(apply_easing(400_000, EasingType::Spring), millionths(spring(0.4)));
    // Between samples it stays within a thousandth of the curve.
    for t in (1..1_000_000u32).step_by(997) {
        let got = apply_easing(t, EasingType::Spring) as f64 / 1e6;
        assert!((got - spring(t as f64 / 1e6)).abs() < 0.001, "at {t}");
    }
}

#[test]
fn lerp_goes_the_given_part_of_the_way() {
    assert_eq!(lerp(100, 200, 500_000), 150);
    assert_eq!(lerp(200, 100, 500_000), 150);
    assert_eq!(lerp(0, 3, 500_000), 2);
    assert_eq!(lerp(3, 0, 500_000), 1);
    assert_eq!(lerp(100, 200, 0), 100);
    assert_eq!(lerp(100, 200, UNIT), 200);
    assert_eq!(lerp(100, 200, 1_250_000), 225);
    assert_eq!(lerp(200, 100, 2_500_000), -50);
    assert_eq!(lerp(0, u32::MAX, u32::MAX), 18_446_744_065_120);
}
