use engine_core::{
    CameraSettings, CaptureMode, CursorState, EasingType, EffectSettings, EffectType, Engine,
    EngineConfig, EventType, FocusRegion, InputEvent, NormalizedCoord, NormalizedRect,
    SignalBatch, Timestamp, Viewport, UNIT,
};

fn tab_config() -> EngineConfig {
    EngineConfig {
        capture_mode: CaptureMode::Tab,
        camera_settings: CameraSettings::default(),
        effect_settings: EffectSettings::default(),
    }
}

#[test]
fn engine_creation_works() {
    // The configuration {"capture_mode":"Tab","camera_settings":{},"effect_settings":{}}.
    let mut engine = Engine::new(tab_config());
    let result = engine.process_signals(&SignalBatch { events: vec![] });
    assert!(result.cursor_track.is_empty());
    assert!(result.focus_regions.is_empty());
    assert!(result.camera_keyframes.is_empty());
    assert!(result.effect_tracks.effects.is_empty());
    assert_eq!(engine.get_viewport_at(0), Viewport::default());
}

#[test]
fn single_click_with_default_camera() {
    let mut engine = Engine::new(tab_config());
    let signals = SignalBatch {
        events: vec![InputEvent {
            timestamp: Timestamp::from_micros(1_000_000),
            event_type: EventType::MouseClick {
                position: NormalizedCoord::new(500_000, 500_000),
                button: 0,
            },
        }],
    };
    let result = engine.process_signals(&signals);

    assert_eq!(result.cursor_track.len(), 1);
    assert_eq!(result.cursor_track[0].confidence, 100);
    assert_eq!(result.cursor_track[0].state, CursorState::Visible);

    assert_eq!(
        result.focus_regions,
        vec![FocusRegion {
            timestamp: Timestamp::from_micros(1_000_000),
            bounds: NormalizedRect::new(425_000, 425_000, 150_000, 150_000),
            importance: UNIT,
        }]
    );

    // The seed, then the keyframe of the focus region. The click itself lies
    // in the dead zone around the seed's centre and gives none.
    assert_eq!(result.camera_keyframes.len(), 2);
    assert_eq!(result.camera_keyframes[0].timestamp.as_micros(), 1_000_000);
    assert_eq!(result.camera_keyframes[0].viewport, Viewport::default());
    assert_eq!(result.camera_keyframes[1].timestamp.as_micros(), 1_000_000);
    assert_eq!(result.camera_keyframes[1].easing, EasingType::EaseOut);
    assert_eq!(
        result.camera_keyframes[1].viewport,
        Viewport { center: NormalizedCoord { x: 500_000, y: 500_000 }, zoom: 1_500_000 }
    );

    let effects = &result.effect_tracks.effects;
    assert_eq!(effects.len(), 2);
    assert_eq!(effects[0].effect_type, EffectType::ClickRing);
    assert_eq!(effects[0].timestamp.as_micros(), 1_000_000);
    assert_eq!(effects[0].duration_us, 300_000);
    assert_eq!(effects[1].effect_type, EffectType::CursorHighlight);
    assert_eq!(effects[1].duration_us, 100_000);
}

#[test]
fn viewport_queries_use_the_keyframes_of_the_last_batch() {
    let mut engine = Engine::new(EngineConfig {
        capture_mode: CaptureMode::Tab,
        camera_settings: CameraSettings { max_pan_speed: u32::MAX, ..Default::default() },
        effect_settings: EffectSettings::default(),
    });
    let moved = |t: u64, x: i64, y: i64| InputEvent {
        timestamp: Timestamp::from_micros(t),
        event_type: EventType::MouseMove { position: NormalizedCoord::new(x, y) },
    };
    let first = SignalBatch { events: vec![moved(0, 500_000, 500_000), moved(2_000_000, 100_000, 100_000)] };
    let result = engine.process_signals(&first);
    let last = result.camera_keyframes.last().expect("keyframes").clone();
    assert_eq!(last.timestamp.as_micros(), 2_000_000);
    assert_eq!(engine.get_viewport_at(2_000_000), last.viewport);
    // At time zero the camera has reached the keyframe of the first focus region.
    assert_eq!(
        engine.get_viewport_at(0),
        Viewport { center: NormalizedCoord { x: 500_000, y: 500_000 }, zoom: 1_500_000 }
    );

    let _ = engine.process_signals(&SignalBatch { events: vec![] });
    assert_eq!(engine.get_viewport_at(2_000_000), Viewport::default());
}

#[test]
fn the_engine_remembers_the_cursor_between_batches() {
    let mut engine = Engine::new(EngineConfig {
        capture_mode: CaptureMode::Screen,
        camera_settings: CameraSettings::default(),
        effect_settings: EffectSettings { click_rings: false, cursor_highlight: false },
    });
    let first = SignalBatch {
        events: vec![InputEvent {
            timestamp: Timestamp::from_micros(5),
            event_type: EventType::MouseMove { position: NormalizedCoord::new(250_000, 750_000) },
        }],
    };
    let second = SignalBatch {
        events: vec![InputEvent {
            timestamp: Timestamp::from_micros(9),
            event_type: EventType::FrameCaptured { frame_index: engine_core::FrameIndex::new(1) },
        }],
    };
    let _ = engine.process_signals(&first);
    let result = engine.process_signals(&second);
    assert_eq!(result.cursor_track[0].position, NormalizedCoord { x: 250_000, y: 750_000 });
    assert!(result.focus_regions.is_empty());
    assert!(result.effect_tracks.effects.is_empty());
}
