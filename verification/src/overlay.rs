//! The overlay: both widgets, and the step that once per frame writes the
//! latest readings into them. A reading that is not there yet leaves the
//! widget as it is.

use vstd::prelude::*;
use crate::binary64::Binary64;
use crate::decimal::{decimal, decimal_string};
use crate::widget::{
    entity_count_label,
    fps_label,
    overlay_style,
    setup_debug_entity_count,
    setup_debug_fps,
    DebugEntityCount,
    DebugFps,
    Placement,
    Widget,
    WidgetView,
    ENTITY_COUNT_BOTTOM,
    FPS_BOTTOM,
    LEFT,
};

verus! {

/// The readings of one frame. A reading is `None` until its first sample has
/// been taken.
#[derive(Clone, Copy, Debug)]
pub struct Snapshot {
    /// The smoothed frame rate.
    pub fps: Option<Binary64>,
    /// The number of live entities.
    pub entity_count: Option<u64>,
}

/// The frame-rate widget after a frame with the reading `fps`.
pub open spec fn shown_fps(before: WidgetView, fps: Option<Binary64>) -> WidgetView {
    match fps {
        Some(rate) => before.with_value(rate.two_decimals()),
        None => before,
    }
}

/// The entity-count widget after a frame with the reading `count`.
pub open spec fn shown_entity_count(before: WidgetView, count: Option<u64>) -> WidgetView {
    match count {
        Some(n) => before.with_value(decimal(n as nat)),
        None => before,
    }
}

/// Writes the frame rate, with two decimal places, into the value of its
/// widget; without a reading the widget stays as it is.
pub fn debug_fps_system(fps: Option<Binary64>, widget: &mut Widget<DebugFps>)
    ensures
        final(widget).tagged() == old(widget).tagged(),
        final(widget)@ == shown_fps(old(widget)@, fps),
{
    if let Some(rate) = fps {
        widget.set_value(rate.format_two_decimals());
    }
}

/// Writes the number of live entities, as a plain numeral, into the value of
/// its widget; without a reading the widget stays as it is.
pub fn debug_entity_count_system(count: Option<u64>, widget: &mut Widget<DebugEntityCount>)
    ensures
        final(widget).tagged() == old(widget).tagged(),
        final(widget)@ == shown_entity_count(old(widget)@, count),
{
    if let Some(n) = count {
        widget.set_value(decimal_string(n));
    }
}

/// What the overlay is to its users: one widget for each tag.
pub struct OverlayView {
    pub fps: WidgetView,
    pub entity_count: WidgetView,
}

impl OverlayView {
    /// The overlay at startup: both labels in place, both values empty.
    pub open spec fn initial() -> OverlayView {
        OverlayView {
            fps: WidgetView {
                label: fps_label(),
                value: Seq::empty(),
                style: overlay_style(),
                placement: Placement { left: LEFT, bottom: FPS_BOTTOM },
            },
            entity_count: WidgetView {
                label: entity_count_label(),
                value: Seq::empty(),
                style: overlay_style(),
                placement: Placement { left: LEFT, bottom: ENTITY_COUNT_BOTTOM },
            },
        }
    }

    /// The overlay after one more frame.
    pub open spec fn step(self, snapshot: Snapshot) -> OverlayView {
        OverlayView {
            fps: shown_fps(self.fps, snapshot.fps),
            entity_count: shown_entity_count(self.entity_count, snapshot.entity_count),
        }
    }

    /// The overlay after the frames `frames`, the earliest first.
    pub open spec fn run(self, frames: Seq<Snapshot>) -> OverlayView
        decreases frames.len(),
    {
        if frames.len() == 0 {
            self
        } else {
            self.run(frames.drop_last()).step(frames.last())
        }
    }
}

/// The latest frame-rate reading that `frames` hold, if they hold any.
pub open spec fn latest_fps(frames: Seq<Snapshot>) -> Option<Binary64>
    decreases frames.len(),
{
    if frames.len() == 0 {
        None
    } else if frames.last().fps is Some {
        frames.last().fps
    } else {
        latest_fps(frames.drop_last())
    }
}

/// The latest entity-count reading that `frames` hold, if they hold any.
pub open spec fn latest_entity_count(frames: Seq<Snapshot>) -> Option<u64>
    decreases frames.len(),
{
    if frames.len() == 0 {
        None
    } else if frames.last().entity_count is Some {
        frames.last().entity_count
    } else {
        latest_entity_count(frames.drop_last())
    }
}

/// The overlay: exactly one widget for each of the two tags.
pub struct Overlay {
    fps: Widget<DebugFps>,
    entity_count: Widget<DebugEntityCount>,
}

impl View for Overlay {
    type V = OverlayView;

    closed spec fn view(&self) -> OverlayView {
        OverlayView { fps: self.fps@, entity_count: self.entity_count@ }
    }
}

impl Overlay {
    /// The overlay at startup.
    pub fn new() -> (overlay: Overlay)
        ensures
            overlay@ == OverlayView::initial(),
    {
        Overlay { fps: setup_debug_fps(), entity_count: setup_debug_entity_count() }
    }

    /// The frame-rate widget.
    pub fn fps(&self) -> (widget: &Widget<DebugFps>)
        ensures
            widget@ == self@.fps,
    {
        &self.fps
    }

    /// The entity-count widget.
    pub fn entity_count(&self) -> (widget: &Widget<DebugEntityCount>)
        ensures
            widget@ == self@.entity_count,
    {
        &self.entity_count
    }

    /// One frame: writes each reading of `snapshot` into its widget.
    pub fn update(&mut self, snapshot: &Snapshot)
        ensures
            final(self)@ == old(self)@.step(*snapshot),
    {
        debug_fps_system(snapshot.fps, &mut self.fps);
        debug_entity_count_system(snapshot.entity_count, &mut self.entity_count);
    }
}

/// The debug overlay as a unit that a scene adds: it builds both widgets at
/// startup, and they are then updated at the end of every frame.
#[derive(Clone, Copy, Debug, PartialEq, Eq, Structural)]
pub struct DebugPlugin;

impl DebugPlugin {
    /// Builds the overlay as it is at startup.
    pub fn build(&self) -> (overlay: Overlay)
        ensures
            overlay@ == OverlayView::initial(),
    {
        Overlay::new()
    }
}

/// Whatever the frames bring, labels, styles and places stay as they were:
/// only values change.
pub proof fn lemma_only_values_change(start: OverlayView, frames: Seq<Snapshot>)
    ensures
        start.run(frames).fps == start.fps.with_value(start.run(frames).fps.value),
        start.run(frames).entity_count == start.entity_count.with_value(
            start.run(frames).entity_count.value,
        ),
    decreases frames.len(),
{
    if frames.len() > 0 {
        lemma_only_values_change(start, frames.drop_last());
    }
}

/// From startup on, the labels are `FPS ` and `ENTITIES ` after every frame.
pub proof fn lemma_labels_are_fixed(frames: Seq<Snapshot>)
    ensures
        OverlayView::initial().run(frames).fps.label == fps_label(),
        OverlayView::initial().run(frames).entity_count.label == entity_count_label(),
{
    lemma_only_values_change(OverlayView::initial(), frames);
}

/// After any frames the frame-rate widget shows the latest reading with two
/// decimal places, and what it showed before them if there was no reading.
pub proof fn lemma_fps_shows_latest_reading(start: OverlayView, frames: Seq<Snapshot>)
    ensures
        start.run(frames).fps.value == match latest_fps(frames) {
            Some(rate) => rate.two_decimals(),
            None => start.fps.value,
        },
    decreases frames.len(),
{
    if frames.len() > 0 {
        lemma_fps_shows_latest_reading(start, frames.drop_last());
    }
}

/// After any frames the entity-count widget shows the latest reading as a
/// plain numeral, and what it showed before them if there was no reading.
pub proof fn lemma_entity_count_shows_latest_reading(start: OverlayView, frames: Seq<Snapshot>)
    ensures
        start.run(frames).entity_count.value == match latest_entity_count(frames) {
            Some(n) => decimal(n as nat),
            None => start.entity_count.value,
        },
    decreases frames.len(),
{
    if frames.len() > 0 {
        lemma_entity_count_shows_latest_reading(start, frames.drop_last());
    }
}

/// A frame that brings a reading makes the widget show that reading, whatever
/// it showed before.
pub proof fn lemma_reading_is_shown(before: OverlayView, snapshot: Snapshot)
    ensures
        snapshot.fps matches Some(rate) ==> before.step(snapshot).fps.text() == before.fps.label
            + rate.two_decimals(),
        snapshot.entity_count matches Some(n) ==> before.step(snapshot).entity_count.text()
            == before.entity_count.label + decimal(n as nat),
{
}

/// Until the first reading arrives, a widget's value stays empty.
pub proof fn lemma_values_stay_empty_without_readings(frames: Seq<Snapshot>)
    ensures
        (forall|i: int| 0 <= i < frames.len() ==> (#[trigger] frames[i]).fps is None)
            ==> OverlayView::initial().run(frames).fps.value == Seq::<char>::empty(),
        (forall|i: int| 0 <= i < frames.len() ==> (#[trigger] frames[i]).entity_count is None)
            ==> OverlayView::initial().run(frames).entity_count.value == Seq::<char>::empty(),
    decreases frames.len(),
{
    if frames.len() > 0 {
        let earlier = frames.drop_last();
        lemma_values_stay_empty_without_readings(earlier);
        assert forall|i: int| 0 <= i < earlier.len() implies earlier[i] == frames[i] by {}
        if forall|i: int| 0 <= i < frames.len() ==> (#[trigger] frames[i]).fps is None {
            assert(frames.last().fps is None);
            assert forall|i: int| 0 <= i < earlier.len() implies (#[trigger] earlier[i]).fps
                is None by {
                assert(earlier[i] == frames[i]);
            }
        }
        if forall|i: int| 0 <= i < frames.len() ==> (#[trigger] frames[i]).entity_count is None {
            assert(frames.last().entity_count is None);
            assert forall|i: int| 0 <= i < earlier.len() implies (
            #[trigger] earlier[i]).entity_count is None by {
                assert(earlier[i] == frames[i]);
            }
        }
    }
}

} // verus!
