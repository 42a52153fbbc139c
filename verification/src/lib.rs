//! The analytical core of a screen-recording editor. From a stream of input
//! events it derives a cursor track, focus regions, camera keyframes for
//! automatic zoom and pan, and effect cues; beside that it maps the time of
//! an export to the time of the source across cuts and speed ramps.
//!
//! # Numbers
//!
//! Every quantity is a whole number, so that every result is exact and every
//! statement about it can be proved.
//!
//! - Times are microseconds.
//! - Coordinates, sizes, zoom factors and importances are millionths:
//!   [`fixed::UNIT`] stands for one.
//! - Playback speeds are counted in [`time_remap::SPEED_UNIT`]-ths.
//!
//! Where a fraction is rounded, the documentation of the function says how.
//!
//! # Modules
//!
//! - [`types`]: the values that the components exchange.
//! - [`cursor`], [`focus`], [`effects`]: the cursor track, the focus regions
//!   and the effect cues of a batch of events.
//! - [`camera`]: the keyframes and the viewport between them;
//!   [`camera::laws`] proves that the keyframes are in order of time and that
//!   the camera keeps to its pan speed.
//! - [`time_remap`]: the mapping between export time and source time;
//!   [`time_remap::laws`] proves that the mapping never runs backwards, where
//!   it stays out of the cuts, and what the export duration adds up to.
//! - [`engine`]: the four components of the pipeline behind one interface.
//! - [`order`] and [`fixed`]: ordering by time and fixed-point arithmetic.
//! - [`error`]: the errors that a host is told of.

pub mod camera;
pub mod cursor;
pub mod effects;
pub mod engine;
pub mod error;
pub mod fixed;
pub mod focus;
pub mod order;
pub mod time_remap;
pub mod types;

pub use camera::CameraEngine;
pub use cursor::CursorTracker;
pub use effects::EffectGenerator;
pub use engine::Engine;
pub use error::EngineError;
pub use fixed::UNIT;
pub use focus::FocusAnalyzer;
pub use time_remap::{
    SpeedRamp, SpeedRampConfig, TimeRange, TimeRangeConfig, TimeRemapper, TimeRemapperConfig,
    WasmTimeRemapper, SPEED_MAX, SPEED_MIN, SPEED_UNIT,
};
pub use types::{
    AnalysisResult, CameraKeyframe, CameraSettings, CaptureMode, CursorState, CursorTrackPoint,
    EasingType, Effect, EffectSettings, EffectTrack, EffectType, EngineConfig, EventType,
    FocusRegion, FrameIndex, InferenceReason, InputEvent, NormalizedCoord, NormalizedRect,
    PixelCoord, SignalBatch, Timestamp, Viewport,
};
