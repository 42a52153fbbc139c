//! The value model: timestamps, coordinates, events and the records that the
//! components hand to one another.

use vstd::prelude::*;
use crate::fixed::{clamp_int, clamp_to, UNIT};

verus! {

/// A point in time, counted in microseconds from an arbitrary origin.
#[derive(Debug, Clone, Copy, PartialEq, Eq, Structural, PartialOrd, Ord, Hash)]
pub struct Timestamp(pub u64);

impl Timestamp {
    /// The instant `us` microseconds after the origin.
    pub fn from_micros(us: u64) -> (t: Timestamp)
        ensures
            t.0 == us,
    {
        Timestamp(us)
    }

    /// The microseconds since the origin.
    pub fn as_micros(&self) -> (us: u64)
        ensures
            us == self.0,
    {
        self.0
    }
}

impl Default for Timestamp {
    fn default() -> (t: Timestamp)
        ensures
            t.0 == 0,
    {
        Timestamp(0)
    }
}

/// The number of a captured frame.
#[derive(Debug, Clone, Copy, PartialEq, Eq, Structural, PartialOrd, Ord, Hash)]
pub struct FrameIndex(pub u32);

impl FrameIndex {
    pub fn new(index: u32) -> (f: FrameIndex)
        ensures
            f.0 == index,
    {
        FrameIndex(index)
    }

    pub fn as_u32(&self) -> (index: u32)
        ensures
            index == self.0,
    {
        self.0
    }
}

impl Default for FrameIndex {
    fn default() -> (f: FrameIndex)
        ensures
            f.0 == 0,
    {
        FrameIndex(0)
    }
}

/// A position in pixels of the source resolution.
#[derive(Debug, Clone, Copy, PartialEq, Eq, Structural)]
pub struct PixelCoord {
    pub x: u32,
    pub y: u32,
}

impl PixelCoord {
    pub fn new(x: u32, y: u32) -> (p: PixelCoord)
        ensures
            p.x == x,
            p.y == y,
    {
        PixelCoord { x, y }
    }
}

impl Default for PixelCoord {
    fn default() -> (p: PixelCoord)
        ensures
            p.x == 0,
            p.y == 0,
    {
        PixelCoord { x: 0, y: 0 }
    }
}

/// A position independent of the resolution. Each component is a number of
/// millionths of the frame's width or height, so `UNIT` is the far edge.
#[derive(Debug, Clone, Copy, PartialEq, Eq, Structural)]
pub struct NormalizedCoord {
    pub x: u32,
    pub y: u32,
}

impl NormalizedCoord {
    /// Both components lie on the frame.
    pub open spec fn is_valid(self) -> bool {
        self.x <= UNIT && self.y <= UNIT
    }

    /// The position that `new` makes of two raw components.
    pub open spec fn clamped(x: int, y: int) -> NormalizedCoord {
        NormalizedCoord {
            x: clamp_int(x, 0, UNIT as int) as u32,
            y: clamp_int(y, 0, UNIT as int) as u32,
        }
    }

    /// Brings each component into the frame: below zero becomes zero, beyond
    /// the far edge becomes the far edge.
    pub fn new(x: i64, y: i64) -> (c: NormalizedCoord)
        ensures
            c == Self::clamped(x as int, y as int),
            c.is_valid(),
    {
        NormalizedCoord { x: clamp_to(x, UNIT), y: clamp_to(y, UNIT) }
    }

    /// The middle of the frame.
    pub fn center() -> (c: NormalizedCoord)
        ensures
            c.x == UNIT / 2,
            c.y == UNIT / 2,
    {
        NormalizedCoord { x: UNIT / 2, y: UNIT / 2 }
    }
}

impl Default for NormalizedCoord {
    fn default() -> (c: NormalizedCoord)
        ensures
            c.x == 0,
            c.y == 0,
    {
        NormalizedCoord { x: 0, y: 0 }
    }
}

/// How the recording was captured.
#[derive(Debug, Clone, Copy, PartialEq, Eq, Structural)]
pub enum CaptureMode {
    /// A browser tab, with input telemetry.
    Tab,
    /// The whole screen, without cursor telemetry.
    Screen,
    /// One window, without cursor telemetry.
    Window,
}

/// What is known of the cursor at a track point.
#[derive(Debug, Clone, Copy, PartialEq, Eq, Structural)]
pub enum CursorState {
    /// The position comes from real input.
    Visible,
    /// The cursor is not shown or is outside the captured area.
    Hidden,
    /// The position was inferred.
    Inferred,
}

/// Why a track point was placed where it is.
#[derive(Debug, Clone, Copy, PartialEq, Eq, Structural)]
pub enum InferenceReason {
    /// Input reported by the page.
    DirectInput,
    /// A cursor shape found in a frame.
    CursorDetection { confidence: u8 },
    /// Motion followed from the previous position.
    MotionTracking,
    /// A change of the user interface, such as a focus change.
    UiChange,
    /// Nothing better than the last known position.
    SaliencyFallback,
}

/// The minimum time between two cursor-driven keyframes, in microseconds.
pub fn default_min_hold_time() -> (v: u64)
    ensures
        v == 500_000,
{
    500_000
}

/// The largest camera movement per second, in millionths of the frame.
pub fn default_max_pan_speed() -> (v: u32)
    ensures
        v == 500_000,
{
    500_000
}

/// The radius around the camera centre inside which the cursor is ignored.
pub fn default_dead_zone() -> (v: u32)
    ensures
        v == 50_000,
{
    50_000
}

/// The zoom factor for a visible cursor, in millionths.
pub fn default_zoom_strength() -> (v: u32)
    ensures
        v == 1_500_000,
{
    1_500_000
}

/// An effect is generated unless the settings turn it off.
pub fn default_true() -> (v: bool)
    ensures
        v,
{
    true
}

/// How the camera behaves.
#[derive(Debug, Clone, Copy, PartialEq, Eq, Structural)]
pub struct CameraSettings {
    /// Minimum time between two cursor-driven keyframes, in microseconds.
    pub min_hold_time_us: u64,
    /// Largest movement of the centre per second, in millionths of the frame.
    pub max_pan_speed: u32,
    /// Radius, in millionths of the frame, inside which the cursor does not
    /// move the camera.
    pub dead_zone: u32,
    /// Zoom factor for a visible cursor, in millionths.
    pub zoom_strength: u32,
}

impl Default for CameraSettings {
    fn default() -> (s: CameraSettings)
        ensures
            s.min_hold_time_us == 500_000,
            s.max_pan_speed == 500_000,
            s.dead_zone == 50_000,
            s.zoom_strength == 1_500_000,
    {
        CameraSettings {
            min_hold_time_us: default_min_hold_time(),
            max_pan_speed: default_max_pan_speed(),
            dead_zone: default_dead_zone(),
            zoom_strength: default_zoom_strength(),
        }
    }
}

/// Which effects are generated.
#[derive(Debug, Clone, Copy, PartialEq, Eq, Structural)]
pub struct EffectSettings {
    /// A ring at every click.
    pub click_rings: bool,
    /// A highlight wherever the cursor is known with confidence.
    pub cursor_highlight: bool,
}

impl Default for EffectSettings {
    fn default() -> (s: EffectSettings)
        ensures
            s.click_rings,
            s.cursor_highlight,
    {
        EffectSettings { click_rings: default_true(), cursor_highlight: default_true() }
    }
}

/// The configuration of an engine.
#[derive(Debug, Clone, Copy, PartialEq, Eq, Structural)]
pub struct EngineConfig {
    pub capture_mode: CaptureMode,
    pub camera_settings: CameraSettings,
    pub effect_settings: EffectSettings,
}

/// A rectangle in the same space as `NormalizedCoord`.
#[derive(Debug, Clone, Copy, PartialEq, Eq, Structural)]
pub struct NormalizedRect {
    pub x: u32,
    pub y: u32,
    pub width: u32,
    pub height: u32,
}

impl NormalizedRect {
    pub fn new(x: u32, y: u32, width: u32, height: u32) -> (r: NormalizedRect)
        ensures
            r.x == x,
            r.y == y,
            r.width == width,
            r.height == height,
    {
        NormalizedRect { x, y, width, height }
    }

    /// The middle of the rectangle, brought into the frame. Half of an odd
    /// extent is rounded down.
    pub open spec fn center_spec(self) -> NormalizedCoord {
        NormalizedCoord::clamped(self.x + self.width / 2, self.y + self.height / 2)
    }

    pub fn center(&self) -> (c: NormalizedCoord)
        ensures
            c == self.center_spec(),
            c.is_valid(),
    {
        NormalizedCoord::new(
            self.x as i64 + (self.width / 2) as i64,
            self.y as i64 + (self.height / 2) as i64,
        )
    }
}

impl Default for NormalizedRect {
    fn default() -> (r: NormalizedRect)
        ensures
            r.x == 0,
            r.y == 0,
            r.width == 0,
            r.height == 0,
    {
        NormalizedRect { x: 0, y: 0, width: 0, height: 0 }
    }
}

/// What happened at an input event.
#[derive(Debug, Clone, Copy, PartialEq, Eq, Structural)]
pub enum EventType {
    /// The mouse moved.
    MouseMove { position: NormalizedCoord },
    /// A mouse button was pressed.
    MouseClick { position: NormalizedCoord, button: u8 },
    /// Another element received the focus.
    FocusChange { bounds: NormalizedRect },
    /// The page was scrolled, by a signed number of millionths.
    Scroll { delta_y: i64 },
    /// A frame was captured.
    FrameCaptured { frame_index: FrameIndex },
}

/// One input event.
#[derive(Debug, Clone, Copy, PartialEq, Eq, Structural)]
pub struct InputEvent {
    pub timestamp: Timestamp,
    pub event_type: EventType,
}

/// The events of one call, in the order in which they were captured.
#[derive(Debug, Clone)]
pub struct SignalBatch {
    pub events: Vec<InputEvent>,
}

/// Where the cursor was at one moment, and how sure that is.
#[derive(Debug, Clone, Copy, PartialEq, Eq, Structural)]
pub struct CursorTrackPoint {
    pub timestamp: Timestamp,
    pub position: NormalizedCoord,
    pub state: CursorState,
    /// From 0 to 100.
    pub confidence: u8,
    pub reason: InferenceReason,
}

/// A region that deserves the viewer's attention.
#[derive(Debug, Clone, Copy, PartialEq, Eq, Structural)]
pub struct FocusRegion {
    pub timestamp: Timestamp,
    pub bounds: NormalizedRect,
    /// In millionths: `UNIT` is the highest importance.
    pub importance: u32,
}

/// What the camera shows: where it looks and how far it is zoomed in.
#[derive(Debug, Clone, Copy, PartialEq, Eq, Structural)]
pub struct Viewport {
    pub center: NormalizedCoord,
    /// In millionths: `UNIT` shows the whole frame, twice as much shows half.
    pub zoom: u32,
}

impl Viewport {
    /// The whole frame.
    pub open spec fn full() -> Viewport {
        Viewport { center: NormalizedCoord { x: UNIT / 2, y: UNIT / 2 }, zoom: UNIT }
    }
}

impl Default for Viewport {
    fn default() -> (v: Viewport)
        ensures
            v == Viewport::full(),
    {
        Viewport { center: NormalizedCoord::center(), zoom: UNIT }
    }
}

/// The curve along which the camera moves into a keyframe.
#[derive(Debug, Clone, Copy, PartialEq, Eq, Structural)]
pub enum EasingType {
    Linear,
    EaseOut,
    EaseInOut,
    Spring,
}

/// The viewport that the camera has reached at a given time.
#[derive(Debug, Clone, Copy, PartialEq, Eq, Structural)]
pub struct CameraKeyframe {
    pub timestamp: Timestamp,
    pub viewport: Viewport,
    pub easing: EasingType,
}

/// The kind of a visual effect.
#[derive(Debug, Clone, Copy, PartialEq, Eq, Structural)]
pub enum EffectType {
    ClickRing,
    CursorHighlight,
}

/// One visual effect.
#[derive(Debug, Clone, Copy, PartialEq, Eq, Structural)]
pub struct Effect {
    pub timestamp: Timestamp,
    pub duration_us: u64,
    pub effect_type: EffectType,
    pub position: NormalizedCoord,
}

/// The effects of one call.
#[derive(Debug, Clone)]
pub struct EffectTrack {
    pub effects: Vec<Effect>,
}

/// Everything that one call produces.
#[derive(Debug, Clone)]
pub struct AnalysisResult {
    pub cursor_track: Vec<CursorTrackPoint>,
    pub focus_regions: Vec<FocusRegion>,
    pub camera_keyframes: Vec<CameraKeyframe>,
    pub effect_tracks: EffectTrack,
}

/// A copy of a vector of plain values.
pub fn copy_of<T: Copy>(v: &Vec<T>) -> (r: Vec<T>)
    ensures
        r@ == v@,
{
    let mut r: Vec<T> = Vec::with_capacity(v.len());
    let mut i: usize = 0;
    while i < v.len()
        invariant
            i <= v.len(),
            r@ == v@.subrange(0, i as int),
        decreases v.len() - i,
    {
        r.push(v[i]);
        i += 1;
        assert(r@ == v@.subrange(0, i as int));
    }
    assert(v@.subrange(0, v.len() as int) == v@);
    r
}

} // verus!
