//! The cursor track: where the cursor was at each input event, and how sure
//! that is.

use vstd::prelude::*;
use crate::fixed::UNIT;
use crate::types::{
    CaptureMode, CursorState, CursorTrackPoint, EventType, InferenceReason, InputEvent,
    NormalizedCoord, SignalBatch, Timestamp,
};

verus! {

/// The confidence of a position that the input reported.
pub const CONFIDENCE_DIRECT: u8 = 100;

/// The confidence of a position taken from the middle of a focused element.
pub const CONFIDENCE_FOCUS: u8 = 80;

/// The confidence of a position that is only the last known one.
pub const CONFIDENCE_FALLBACK: u8 = 50;

/// The track point that an event gives, if it gives one. `last` is the
/// position of the track point before it, if there was one.
///
/// A mouse move or click gives its own position, seen directly. A focus
/// change gives the middle of the focused element, inferred. A captured frame
/// gives the last position, or the middle of the frame without one, inferred
/// with little confidence. A scroll gives nothing.
pub open spec fn point_of(event: InputEvent, last: Option<NormalizedCoord>) -> Option<
    CursorTrackPoint,
> {
    match event.event_type {
        EventType::MouseMove { position } => Some(
            CursorTrackPoint {
                timestamp: event.timestamp,
                position,
                state: CursorState::Visible,
                confidence: CONFIDENCE_DIRECT,
                reason: InferenceReason::DirectInput,
            },
        ),
        EventType::MouseClick { position, button } => Some(
            CursorTrackPoint {
                timestamp: event.timestamp,
                position,
                state: CursorState::Visible,
                confidence: CONFIDENCE_DIRECT,
                reason: InferenceReason::DirectInput,
            },
        ),
        EventType::FocusChange { bounds } => Some(
            CursorTrackPoint {
                timestamp: event.timestamp,
                position: bounds.center_spec(),
                state: CursorState::Inferred,
                confidence: CONFIDENCE_FOCUS,
                reason: InferenceReason::UiChange,
            },
        ),
        EventType::FrameCaptured { frame_index } => Some(
            CursorTrackPoint {
                timestamp: event.timestamp,
                position: match last {
                    Some(position) => position,
                    None => NormalizedCoord { x: UNIT / 2, y: UNIT / 2 },
                },
                state: CursorState::Inferred,
                confidence: CONFIDENCE_FALLBACK,
                reason: InferenceReason::SaliencyFallback,
            },
        ),
        EventType::Scroll { delta_y } => None,
    }
}

/// What a tracker remembers between calls, and, while it walks along the
/// events of a call, the track so far.
pub struct Tracking {
    pub track: Seq<CursorTrackPoint>,
    pub last_position: Option<NormalizedCoord>,
    pub last_timestamp: Option<Timestamp>,
}

/// The walk after one more event.
pub open spec fn track_step(walk: Tracking, event: InputEvent) -> Tracking {
    match point_of(event, walk.last_position) {
        Some(point) => Tracking {
            track: walk.track.push(point),
            last_position: Some(point.position),
            last_timestamp: Some(point.timestamp),
        },
        None => walk,
    }
}

/// The walk along all the events, begun at `start`.
pub open spec fn track_walk(start: Tracking, events: Seq<InputEvent>) -> Tracking
    decreases events.len(),
{
    if events.len() == 0 {
        start
    } else {
        track_step(track_walk(start, events.drop_last()), events.last())
    }
}

/// Turns input events into a cursor track. It remembers the last position
/// from one call to the next.
pub struct CursorTracker {
    _capture_mode: CaptureMode,
    last_position: Option<NormalizedCoord>,
    last_timestamp: Option<Timestamp>,
}

impl CursorTracker {
    /// The capture mode that the tracker was made for.
    pub closed spec fn capture_mode(&self) -> CaptureMode {
        self._capture_mode
    }

    /// The position of the last track point, if there was one.
    pub closed spec fn last_position(&self) -> Option<NormalizedCoord> {
        self.last_position
    }

    /// The time of the last track point, if there was one.
    pub closed spec fn last_timestamp(&self) -> Option<Timestamp> {
        self.last_timestamp
    }

    /// What the tracker remembers, as the start of a walk.
    pub open spec fn remembered(&self) -> Tracking {
        Tracking {
            track: Seq::empty(),
            last_position: self.last_position(),
            last_timestamp: self.last_timestamp(),
        }
    }

    /// A tracker that has seen nothing yet.
    pub fn new(capture_mode: CaptureMode) -> (t: CursorTracker)
        ensures
            t.capture_mode() == capture_mode,
            t.last_position() is None,
            t.last_timestamp() is None,
    {
        CursorTracker { _capture_mode: capture_mode, last_position: None, last_timestamp: None }
    }

    /// The track points of a batch of events, in the order of the events.
    pub fn process(&mut self, signals: &SignalBatch) -> (track: Vec<CursorTrackPoint>)
        ensures
            track@ == track_walk(old(self).remembered(), signals.events@).track,
            final(self).last_position() == track_walk(
                old(self).remembered(),
                signals.events@,
            ).last_position,
            final(self).last_timestamp() == track_walk(
                old(self).remembered(),
                signals.events@,
            ).last_timestamp,
            final(self).capture_mode() == old(self).capture_mode(),
    {
        let ghost start = self.remembered();
        let mut track: Vec<CursorTrackPoint> = Vec::with_capacity(signals.events.len());
        let mut i: usize = 0;
        assert(signals.events@.subrange(0, 0) =~= Seq::<InputEvent>::empty());
        while i < signals.events.len()
            invariant
                i <= signals.events.len(),
                self._capture_mode == old(self)._capture_mode,
                track_walk(start, signals.events@.subrange(0, i as int)) == (Tracking {
                    track: track@,
                    last_position: self.last_position,
                    last_timestamp: self.last_timestamp,
                }),
            decreases signals.events.len() - i,
        {
            let ghost upto = signals.events@.subrange(0, i + 1);
            assert(upto.last() == signals.events@[i as int]);
            assert(upto.drop_last() == signals.events@.subrange(0, i as int));
            match self.process_event(&signals.events[i]) {
                Some(point) => {
                    self.last_position = Some(point.position);
                    self.last_timestamp = Some(point.timestamp);
                    track.push(point);
                },
                None => {},
            }
            i += 1;
        }
        assert(signals.events@.subrange(0, signals.events.len() as int) == signals.events@);
        track
    }

    /// The track point that one event gives, if it gives one.
    fn process_event(&self, event: &InputEvent) -> (point: Option<CursorTrackPoint>)
        ensures
            point == point_of(*event, self.last_position),
    {
        match event.event_type {
            EventType::MouseMove { position } => Some(
                CursorTrackPoint {
                    timestamp: event.timestamp,
                    position,
                    state: CursorState::Visible,
                    confidence: CONFIDENCE_DIRECT,
                    reason: InferenceReason::DirectInput,
                },
            ),
            EventType::MouseClick { position, button } => Some(
                CursorTrackPoint {
                    timestamp: event.timestamp,
                    position,
                    state: CursorState::Visible,
                    confidence: CONFIDENCE_DIRECT,
                    reason: InferenceReason::DirectInput,
                },
            ),
            EventType::FocusChange { bounds } => Some(
                CursorTrackPoint {
                    timestamp: event.timestamp,
                    position: bounds.center(),
                    state: CursorState::Inferred,
                    confidence: CONFIDENCE_FOCUS,
                    reason: InferenceReason::UiChange,
                },
            ),
            EventType::FrameCaptured { frame_index } => {
                let position: NormalizedCoord = match self.last_position {
                    Some(position) => position,
                    None => NormalizedCoord::center(),
                };
                Some(
                    CursorTrackPoint {
                        timestamp: event.timestamp,
                        position,
                        state: CursorState::Inferred,
                        confidence: CONFIDENCE_FALLBACK,
                        reason: InferenceReason::SaliencyFallback,
                    },
                )
            },
            EventType::Scroll { delta_y } => None,
        }
    }
}

} // verus!
