//! A debug overlay for a 2D scene: two text widgets, one for the frame rate and
//! one for the number of live entities, and the per-frame step that writes the
//! latest diagnostic readings into them.
//!
//! The frame rate is shown with exactly two decimal places, the entity count
//! as a plain numeral. A reading that is not there yet leaves its widget as it
//! is, and nothing ever changes a label.

pub mod binary64;
pub mod decimal;
pub mod digits;
pub mod overlay;
pub mod widget;

pub use binary64::Binary64;
pub use overlay::{
    debug_entity_count_system, debug_fps_system, DebugPlugin, Overlay, Snapshot,
};
pub use widget::{
    setup_debug_entity_count, setup_debug_fps, DebugEntityCount, DebugFps, Placement, Rgb,
    TextStyle, Widget,
};
