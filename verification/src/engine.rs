//! The engine: one call takes a batch of input events through the cursor
//! tracker, the focus analyzer, the camera and the effect generator.

use vstd::prelude::*;
use crate::camera::{keyframes_of, viewport_at, Camera, CameraEngine};
use crate::cursor::{track_walk, CursorTracker};
use crate::effects::{effects_of, EffectGenerator};
use crate::focus::{regions_of, FocusAnalyzer};
use crate::types::{
    AnalysisResult, CameraKeyframe, CursorTrackPoint, EffectSettings, EffectTrack, EngineConfig,
    FocusRegion, SignalBatch, Timestamp, Viewport,
};

verus! {

/// The four components behind one interface.
pub struct Engine {
    cursor_tracker: CursorTracker,
    focus_analyzer: FocusAnalyzer,
    camera_engine: CameraEngine,
    effect_generator: EffectGenerator,
}

impl Engine {
    /// The cursor tracker, with what it remembers.
    pub closed spec fn tracker(&self) -> CursorTracker {
        self.cursor_tracker
    }

    /// The focus regions that were found last.
    pub closed spec fn focus(&self) -> Seq<FocusRegion> {
        self.focus_analyzer@
    }

    /// The camera: its settings and the keyframes that were generated last.
    pub closed spec fn camera(&self) -> Camera {
        self.camera_engine@
    }

    /// Which effects are generated.
    pub closed spec fn effect_settings(&self) -> EffectSettings {
        self.effect_generator@
    }

    /// An engine for a configuration. It has seen no events yet.
    pub fn new(config: EngineConfig) -> (e: Engine)
        ensures
            e.tracker().capture_mode() == config.capture_mode,
            e.tracker().last_position() is None,
            e.tracker().last_timestamp() is None,
            e.focus() == Seq::<FocusRegion>::empty(),
            e.camera().settings == config.camera_settings,
            e.camera().keyframes == Seq::<CameraKeyframe>::empty(),
            e.effect_settings() == config.effect_settings,
    {
        Engine {
            cursor_tracker: CursorTracker::new(config.capture_mode),
            focus_analyzer: FocusAnalyzer::new(),
            camera_engine: CameraEngine::new(config.camera_settings),
            effect_generator: EffectGenerator::new(config.effect_settings),
        }
    }

    /// Analyses a batch of events: the cursor track of the events, the focus
    /// regions of the events and the track, the camera keyframes of the track
    /// and the regions, and the effects of the events and the track. The
    /// tracker remembers the last position, the camera the keyframes.
    pub fn process_signals(&mut self, signals: &SignalBatch) -> (result: AnalysisResult)
        ensures
            result.cursor_track@ == track_walk(
                old(self).tracker().remembered(),
                signals.events@,
            ).track,
            result.focus_regions@ == regions_of(signals.events@, result.cursor_track@),
            result.camera_keyframes@ == keyframes_of(
                old(self).camera().settings,
                result.cursor_track@,
                result.focus_regions@,
            ),
            result.effect_tracks.effects@ == effects_of(
                old(self).effect_settings(),
                signals.events@,
                result.cursor_track@,
            ),
            final(self).tracker().capture_mode() == old(self).tracker().capture_mode(),
            final(self).tracker().last_position() == track_walk(
                old(self).tracker().remembered(),
                signals.events@,
            ).last_position,
            final(self).tracker().last_timestamp() == track_walk(
                old(self).tracker().remembered(),
                signals.events@,
            ).last_timestamp,
            final(self).focus() == result.focus_regions@,
            final(self).camera().settings == old(self).camera().settings,
            final(self).camera().keyframes == result.camera_keyframes@,
            final(self).effect_settings() == old(self).effect_settings(),
    {
        let cursor_track: Vec<CursorTrackPoint> = self.cursor_tracker.process(signals);
        let focus_regions: Vec<FocusRegion> = self.focus_analyzer.analyze(
            signals,
            cursor_track.as_slice(),
        );
        let keyframes: Vec<CameraKeyframe> = self.camera_engine.generate_keyframes(
            cursor_track.as_slice(),
            focus_regions.as_slice(),
        );
        let effects: EffectTrack = self.effect_generator.generate(signals, cursor_track.as_slice());
        AnalysisResult {
            cursor_track,
            focus_regions,
            camera_keyframes: keyframes,
            effect_tracks: effects,
        }
    }

    /// The viewport at a time in microseconds, between the keyframes that
    /// were generated last.
    pub fn get_viewport_at(&self, timestamp_us: u64) -> (v: Viewport)
        ensures
            v == viewport_at(self.camera().keyframes, timestamp_us as int),
    {
        let ts: Timestamp = Timestamp::from_micros(timestamp_us);
        self.camera_engine.get_viewport_at(ts)
    }
}

} // verus!
