//! Focus regions: the parts of the frame that deserve the viewer's attention.

use vstd::prelude::*;
use crate::fixed::UNIT;
use crate::types::{
    copy_of, CursorTrackPoint, EventType, FocusRegion, InputEvent, NormalizedRect, SignalBatch,
};

verus! {

/// The width and height of the region around a cursor position, in
/// millionths of the frame.
pub const FOCUS_SIZE: u32 = 150_000;

/// The importance that one point of confidence is worth: a hundredth.
pub const IMPORTANCE_PER_POINT: u32 = 10_000;

/// The lowest confidence at which a cursor point gives a focus region.
pub const MIN_REGION_CONFIDENCE: u8 = 80;

/// The regions of the focus changes among the events, in their order: each
/// has the bounds of the focused element and the highest importance.
pub open spec fn focus_change_regions(events: Seq<InputEvent>) -> Seq<FocusRegion>
    decreases events.len(),
{
    if events.len() == 0 {
        Seq::empty()
    } else {
        let head = focus_change_regions(events.drop_last());
        match events.last().event_type {
            EventType::FocusChange { bounds } => head.push(
                FocusRegion { timestamp: events.last().timestamp, bounds, importance: UNIT },
            ),
            _ => head,
        }
    }
}

/// Where the region around a cursor coordinate starts: half a region before
/// the coordinate, but not before the edge of the frame.
pub open spec fn region_start(at: int) -> int {
    if at >= FOCUS_SIZE / 2 {
        at - FOCUS_SIZE / 2
    } else {
        0
    }
}

/// How far the region around a cursor coordinate extends: a whole region,
/// but no more than from half a region before the coordinate to the far edge
/// of the frame.
pub open spec fn region_extent(at: int) -> int {
    if at > UNIT + FOCUS_SIZE / 2 {
        0
    } else if UNIT + FOCUS_SIZE / 2 - at < FOCUS_SIZE {
        UNIT + FOCUS_SIZE / 2 - at
    } else {
        FOCUS_SIZE as int
    }
}

/// The region around a cursor point. Its importance is the confidence of the
/// point, as a part of a hundred.
pub open spec fn cursor_region(point: CursorTrackPoint) -> FocusRegion {
    FocusRegion {
        timestamp: point.timestamp,
        bounds: NormalizedRect {
            x: region_start(point.position.x as int) as u32,
            y: region_start(point.position.y as int) as u32,
            width: region_extent(point.position.x as int) as u32,
            height: region_extent(point.position.y as int) as u32,
        },
        importance: (point.confidence * IMPORTANCE_PER_POINT) as u32,
    }
}

/// The regions of the cursor points that are sure enough, in their order.
pub open spec fn cursor_regions(track: Seq<CursorTrackPoint>) -> Seq<FocusRegion>
    decreases track.len(),
{
    if track.len() == 0 {
        Seq::empty()
    } else {
        let head = cursor_regions(track.drop_last());
        if track.last().confidence >= MIN_REGION_CONFIDENCE {
            head.push(cursor_region(track.last()))
        } else {
            head
        }
    }
}

/// The focus regions of a batch: those of the focus changes, then those of
/// the cursor points.
pub open spec fn regions_of(events: Seq<InputEvent>, track: Seq<CursorTrackPoint>) -> Seq<
    FocusRegion,
> {
    focus_change_regions(events) + cursor_regions(track)
}

/// Finds the focus regions of a batch and remembers the last ones it found.
pub struct FocusAnalyzer {
    active_regions: Vec<FocusRegion>,
}

impl View for FocusAnalyzer {
    type V = Seq<FocusRegion>;

    /// The regions that were found last.
    closed spec fn view(&self) -> Seq<FocusRegion> {
        self.active_regions@
    }
}

impl FocusAnalyzer {
    /// An analyzer that has found nothing yet.
    pub fn new() -> (a: FocusAnalyzer)
        ensures
            a@ == Seq::<FocusRegion>::empty(),
    {
        FocusAnalyzer { active_regions: Vec::new() }
    }

    /// The focus regions of a batch of events and its cursor track.
    pub fn analyze(&mut self, signals: &SignalBatch, cursor_track: &[CursorTrackPoint]) -> (regions:
        Vec<FocusRegion>)
        ensures
            regions@ == regions_of(signals.events@, cursor_track@),
            final(self)@ == regions@,
    {
        let mut regions: Vec<FocusRegion> = Vec::new();
        let mut i: usize = 0;
        assert(signals.events@.subrange(0, 0) =~= Seq::<InputEvent>::empty());
        while i < signals.events.len()
            invariant
                i <= signals.events.len(),
                regions@ == focus_change_regions(signals.events@.subrange(0, i as int)),
            decreases signals.events.len() - i,
        {
            let ghost upto = signals.events@.subrange(0, i + 1);
            assert(upto.last() == signals.events@[i as int]);
            assert(upto.drop_last() == signals.events@.subrange(0, i as int));
            let event: InputEvent = signals.events[i];
            match event.event_type {
                EventType::FocusChange { bounds } => {
                    regions.push(
                        FocusRegion { timestamp: event.timestamp, bounds, importance: UNIT },
                    );
                },
                _ => {},
            }
            i += 1;
        }
        assert(signals.events@.subrange(0, signals.events.len() as int) == signals.events@);

        let ghost from_events = regions@;
        let mut k: usize = 0;
        assert(cursor_track@.subrange(0, 0) =~= Seq::<CursorTrackPoint>::empty());
        while k < cursor_track.len()
            invariant
                k <= cursor_track.len(),
                regions@ == from_events + cursor_regions(cursor_track@.subrange(0, k as int)),
            decreases cursor_track.len() - k,
        {
            let ghost upto = cursor_track@.subrange(0, k + 1);
            assert(upto.last() == cursor_track@[k as int]);
            assert(upto.drop_last() == cursor_track@.subrange(0, k as int));
            let point: CursorTrackPoint = cursor_track[k];
            if point.confidence >= MIN_REGION_CONFIDENCE {
                regions.push(self.cursor_to_focus_region(&point));
                assert(regions@ =~= from_events + cursor_regions(upto));
            }
            k += 1;
        }
        assert(cursor_track@.subrange(0, cursor_track.len() as int) == cursor_track@);

        self.active_regions = copy_of(&regions);
        regions
    }

    /// The region around a cursor point.
    fn cursor_to_focus_region(&self, point: &CursorTrackPoint) -> (region: FocusRegion)
        ensures
            region == cursor_region(*point),
    {
        let half: u32 = FOCUS_SIZE / 2;
        FocusRegion {
            timestamp: point.timestamp,
            bounds: NormalizedRect::new(
                point.position.x.saturating_sub(half),
                point.position.y.saturating_sub(half),
                extent_at(point.position.x),
                extent_at(point.position.y),
            ),
            importance: point.confidence as u32 * IMPORTANCE_PER_POINT,
        }
    }
}

/// How far the region around a cursor coordinate extends.
fn extent_at(at: u32) -> (extent: u32)
    ensures
        extent == region_extent(at as int),
{
    let room: u32 = (UNIT + FOCUS_SIZE / 2).saturating_sub(at);
    if room < FOCUS_SIZE {
        room
    } else {
        FOCUS_SIZE
    }
}

impl Default for FocusAnalyzer {
    fn default() -> (a: FocusAnalyzer)
        ensures
            a@ == Seq::<FocusRegion>::empty(),
    {
        FocusAnalyzer::new()
    }
}

} // verus!
