//! Effect cues: rings at clicks and highlights at the cursor.

use vstd::prelude::*;
use crate::types::{
    CursorTrackPoint, Effect, EffectSettings, EffectTrack, EffectType, EventType, InputEvent,
    SignalBatch,
};

verus! {

/// How long a click ring lasts, in microseconds.
pub const CLICK_RING_US: u64 = 300_000;

/// How long a cursor highlight lasts, in microseconds.
pub const CURSOR_HIGHLIGHT_US: u64 = 100_000;

/// The lowest confidence at which a cursor point gets a highlight.
pub const MIN_HIGHLIGHT_CONFIDENCE: u8 = 80;

/// A ring for every click among the events, in their order.
pub open spec fn click_rings(events: Seq<InputEvent>) -> Seq<Effect>
    decreases events.len(),
{
    if events.len() == 0 {
        Seq::empty()
    } else {
        let head = click_rings(events.drop_last());
        match events.last().event_type {
            EventType::MouseClick { position, button } => head.push(
                Effect {
                    timestamp: events.last().timestamp,
                    duration_us: CLICK_RING_US,
                    effect_type: EffectType::ClickRing,
                    position,
                },
            ),
            _ => head,
        }
    }
}

/// A highlight for every cursor point that is sure enough, in their order.
pub open spec fn cursor_highlights(track: Seq<CursorTrackPoint>) -> Seq<Effect>
    decreases track.len(),
{
    if track.len() == 0 {
        Seq::empty()
    } else {
        let head = cursor_highlights(track.drop_last());
        if track.last().confidence >= MIN_HIGHLIGHT_CONFIDENCE {
            head.push(
                Effect {
                    timestamp: track.last().timestamp,
                    duration_us: CURSOR_HIGHLIGHT_US,
                    effect_type: EffectType::CursorHighlight,
                    position: track.last().position,
                },
            )
        } else {
            head
        }
    }
}

/// The effects of a batch: the click rings, then the cursor highlights, each
/// kind only where the settings ask for it.
pub open spec fn effects_of(
    settings: EffectSettings,
    events: Seq<InputEvent>,
    track: Seq<CursorTrackPoint>,
) -> Seq<Effect> {
    (if settings.click_rings {
        click_rings(events)
    } else {
        Seq::empty()
    }) + (if settings.cursor_highlight {
        cursor_highlights(track)
    } else {
        Seq::empty()
    })
}

/// Generates the effect cues of a batch.
pub struct EffectGenerator {
    settings: EffectSettings,
}

impl View for EffectGenerator {
    type V = EffectSettings;

    closed spec fn view(&self) -> EffectSettings {
        self.settings
    }
}

impl EffectGenerator {
    /// A generator with the given settings.
    pub fn new(settings: EffectSettings) -> (g: EffectGenerator)
        ensures
            g@ == settings,
    {
        EffectGenerator { settings }
    }

    /// The effects of a batch of events and its cursor track.
    pub fn generate(&self, signals: &SignalBatch, cursor_track: &[CursorTrackPoint]) -> (track:
        EffectTrack)
        ensures
            track.effects@ == effects_of(self@, signals.events@, cursor_track@),
    {
        let mut effects: Vec<Effect> = Vec::new();
        if self.settings.click_rings {
            let mut i: usize = 0;
            assert(signals.events@.subrange(0, 0) =~= Seq::<InputEvent>::empty());
            while i < signals.events.len()
                invariant
                    i <= signals.events.len(),
                    effects@ == click_rings(signals.events@.subrange(0, i as int)),
                decreases signals.events.len() - i,
            {
                let ghost upto = signals.events@.subrange(0, i + 1);
                assert(upto.last() == signals.events@[i as int]);
                assert(upto.drop_last() == signals.events@.subrange(0, i as int));
                let event: InputEvent = signals.events[i];
                match event.event_type {
                    EventType::MouseClick { position, button } => {
                        effects.push(
                            Effect {
                                timestamp: event.timestamp,
                                duration_us: CLICK_RING_US,
                                effect_type: EffectType::ClickRing,
                                position,
                            },
                        );
                    },
                    _ => {},
                }
                i += 1;
            }
            assert(signals.events@.subrange(0, signals.events.len() as int) == signals.events@);
        }
        let ghost rings = effects@;
        if self.settings.cursor_highlight {
            let mut k: usize = 0;
            assert(cursor_track@.subrange(0, 0) =~= Seq::<CursorTrackPoint>::empty());
            while k < cursor_track.len()
                invariant
                    k <= cursor_track.len(),
                    effects@ == rings + cursor_highlights(cursor_track@.subrange(0, k as int)),
                decreases cursor_track.len() - k,
            {
                let ghost upto = cursor_track@.subrange(0, k + 1);
                assert(upto.last() == cursor_track@[k as int]);
                assert(upto.drop_last() == cursor_track@.subrange(0, k as int));
                let point: CursorTrackPoint = cursor_track[k];
                if point.confidence >= MIN_HIGHLIGHT_CONFIDENCE {
                    effects.push(
                        Effect {
                            timestamp: point.timestamp,
                            duration_us: CURSOR_HIGHLIGHT_US,
                            effect_type: EffectType::CursorHighlight,
                            position: point.position,
                        },
                    );
                    assert(effects@ =~= rings + cursor_highlights(upto));
                }
                k += 1;
            }
            assert(cursor_track@.subrange(0, cursor_track.len() as int) == cursor_track@);
        }
        assert(effects@ =~= effects_of(self.settings, signals.events@, cursor_track@));
        EffectTrack { effects }
    }
}

} // verus!
