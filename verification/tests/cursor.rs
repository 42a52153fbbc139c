use engine_core::{
    CaptureMode, CursorState, CursorTracker, CursorTrackPoint, EventType, FrameIndex,
    InferenceReason, InputEvent, NormalizedCoord, NormalizedRect, SignalBatch, Timestamp,
};

fn event(t: u64, event_type: EventType) -> InputEvent {
    InputEvent { timestamp: Timestamp::from_micros(t), event_type }
}

#[test]
fn tab_mode_direct_input() {
    let mut tracker = CursorTracker::new(CaptureMode::Tab);
    let signals = SignalBatch {
        events: vec![InputEvent {
            timestamp: Timestamp::from_micros(1000),
            event_type: EventType::MouseMove { position: NormalizedCoord::new(300_000, 700_000) },
        }],
    };

    let track = tracker.process(&signals);
    assert_eq!(track.len(), 1);
    assert_eq!(track[0].confidence, 100);
    assert_eq!(track[0].state, CursorState::Visible);
}

#[test]
fn focus_change_inferred() {
    let mut tracker = CursorTracker::new(CaptureMode::Tab);
    let signals = SignalBatch {
        events: vec![InputEvent {
            timestamp: Timestamp::from_micros(1000),
            event_type: EventType::FocusChange {
                bounds: NormalizedRect::new(200_000, 200_000, 400_000, 200_000),
            },
        }],
    };

    let track = tracker.process(&signals);
    assert_eq!(track.len(), 1);
    assert_eq!(track[0].state, CursorState::Inferred);
    let x = track[0].position.x as f64 / 1_000_000.0;
    assert!((x - 0.4).abs() < 0.01);
}

#[test]
fn every_kind_of_event_gives_its_point() {
    let mut tracker = CursorTracker::new(CaptureMode::Screen);
    let at = NormalizedCoord::new(300_000, 700_000);
    let signals = SignalBatch {
        events: vec![
            event(10, EventType::FrameCaptured { frame_index: FrameIndex::new(0) }),
            event(20, EventType::MouseMove { position: at }),
            event(30, EventType::Scroll { delta_y: -120_000_000 }),
            event(40, EventType::FrameCaptured { frame_index: FrameIndex::new(1) }),
            event(50, EventType::MouseClick { position: NormalizedCoord::new(1, 2), button: 2 }),
            event(
                60,
                EventType::FocusChange {
                    bounds: NormalizedRect::new(200_000, 200_000, 400_000, 200_000),
                },
            ),
            event(70, EventType::FrameCaptured { frame_index: FrameIndex::new(2) }),
        ],
    };
    let track = tracker.process(&signals);
    let inferred = |t: u64, x: u32, y: u32, confidence: u8, reason: InferenceReason| {
        CursorTrackPoint {
            timestamp: Timestamp::from_micros(t),
            position: NormalizedCoord { x, y },
            state: CursorState::Inferred,
            confidence,
            reason,
        }
    };
    let direct = |t: u64, x: u32, y: u32| CursorTrackPoint {
        timestamp: Timestamp::from_micros(t),
        position: NormalizedCoord { x, y },
        state: CursorState::Visible,
        confidence: 100,
        reason: InferenceReason::DirectInput,
    };
    assert_eq!(
        track,
        vec![
            inferred(10, 500_000, 500_000, 50, InferenceReason::SaliencyFallback),
            direct(20, 300_000, 700_000),
            inferred(40, 300_000, 700_000, 50, InferenceReason::SaliencyFallback),
            direct(50, 1, 2),
            inferred(60, 400_000, 300_000, 80, InferenceReason::UiChange),
            inferred(70, 400_000, 300_000, 50, InferenceReason::SaliencyFallback),
        ]
    );
}

#[test]
fn the_last_position_is_remembered_between_batches() {
    let mut tracker = CursorTracker::new(CaptureMode::Window);
    let first = SignalBatch {
        events: vec![event(
            10,
            EventType::MouseMove { position: NormalizedCoord::new(123_456, 654_321) },
        )],
    };
    let second = SignalBatch {
        events: vec![event(20, EventType::FrameCaptured { frame_index: FrameIndex::new(7) })],
    };
    let _ = tracker.process(&first);
    let track = tracker.process(&second);
    assert_eq!(track.len(), 1);
    assert_eq!(track[0].position, NormalizedCoord { x: 123_456, y: 654_321 });
    assert_eq!(track[0].confidence, 50);
}

#[test]
fn an_empty_batch_gives_an_empty_track() {
    let mut tracker = CursorTracker::new(CaptureMode::Tab);
    assert!(tracker.process(&SignalBatch { events: vec![] }).is_empty());
    let scrolls = SignalBatch { events: vec![event(1, EventType::Scroll { delta_y: 5 })] };
    assert!(tracker.process(&scrolls).is_empty());
}
