//! The two text widgets of the overlay: a fixed label, a value that changes,
//! a fixed place on the screen, and a tag that tells the two apart.

use vstd::prelude::*;
use vstd::string::StringExecFns;

verus! {

/// Tags the widget that shows the frame rate.
#[derive(Clone, Copy, Debug, PartialEq, Eq, Structural)]
pub struct DebugFps;

/// Tags the widget that shows the number of live entities.
#[derive(Clone, Copy, Debug, PartialEq, Eq, Structural)]
pub struct DebugEntityCount;

/// A colour by its red, green and blue parts.
#[derive(Clone, Copy, Debug, PartialEq, Eq, Structural)]
pub struct Rgb {
    pub red: u8,
    pub green: u8,
    pub blue: u8,
}

/// How a widget's text is drawn: the height of the font in pixels and the
/// colour.
#[derive(Clone, Copy, Debug, PartialEq, Eq, Structural)]
pub struct TextStyle {
    pub font_size: u32,
    pub color: Rgb,
}

/// Where a widget stands: the distances in pixels of its lower left corner
/// from the left and the bottom edge of the window.
#[derive(Clone, Copy, Debug, PartialEq, Eq, Structural)]
pub struct Placement {
    pub left: u32,
    pub bottom: u32,
}

/// The height of the overlay's font in pixels.
pub const FONT_SIZE: u32 = 24;

/// The distance of both widgets from the left edge of the window.
pub const LEFT: u32 = 10;

/// The distance of the frame-rate widget from the bottom edge.
pub const FPS_BOTTOM: u32 = 10;

/// The distance of the entity-count widget from the bottom edge.
pub const ENTITY_COUNT_BOTTOM: u32 = 40;

/// The label of the frame-rate widget: `FPS` and a space.
pub open spec fn fps_label() -> Seq<char> {
    seq!['F', 'P', 'S', ' ']
}

/// The label of the entity-count widget: `ENTITIES` and a space.
pub open spec fn entity_count_label() -> Seq<char> {
    seq!['E', 'N', 'T', 'I', 'T', 'I', 'E', 'S', ' ']
}

/// The style of both widgets: white, in the overlay's font size.
pub open spec fn overlay_style() -> TextStyle {
    TextStyle { font_size: FONT_SIZE, color: Rgb { red: 255, green: 255, blue: 255 } }
}

/// What a widget is to its users.
pub struct WidgetView {
    pub label: Seq<char>,
    pub value: Seq<char>,
    pub style: TextStyle,
    pub placement: Placement,
}

impl WidgetView {
    /// The text on the screen: the label, then the value.
    pub open spec fn text(self) -> Seq<char> {
        self.label + self.value
    }

    /// The same widget showing `value`.
    pub open spec fn with_value(self, value: Seq<char>) -> WidgetView {
        WidgetView { value, ..self }
    }
}

/// A text widget with the tag `T`. Only its value can be changed.
pub struct Widget<T> {
    tag: T,
    label: String,
    value: String,
    style: TextStyle,
    placement: Placement,
}

impl<T> View for Widget<T> {
    type V = WidgetView;

    closed spec fn view(&self) -> WidgetView {
        WidgetView {
            label: self.label@,
            value: self.value@,
            style: self.style,
            placement: self.placement,
        }
    }
}

impl<T> Widget<T> {
    /// The tag that the widget was made with.
    pub closed spec fn tagged(&self) -> T {
        self.tag
    }

    /// A widget with the given tag, label, style and place, and an empty value.
    pub fn new(tag: T, label: &str, style: TextStyle, placement: Placement) -> (widget: Self)
        ensures
            widget.tagged() == tag,
            widget@ == (WidgetView { label: label@, value: Seq::empty(), style, placement }),
    {
        Widget { tag, label: String::from_str(label), value: String::new(), style, placement }
    }

    /// The tag.
    pub fn tag(&self) -> (tag: &T)
        ensures
            *tag == self.tagged(),
    {
        &self.tag
    }

    /// The fixed first part of the text.
    pub fn label(&self) -> (label: &str)
        ensures
            label@ == self@.label,
    {
        self.label.as_str()
    }

    /// The second part of the text, which changes.
    pub fn value(&self) -> (value: &str)
        ensures
            value@ == self@.value,
    {
        self.value.as_str()
    }

    /// How the text is drawn.
    pub fn style(&self) -> (style: TextStyle)
        ensures
            style == self@.style,
    {
        self.style
    }

    /// Where the widget stands.
    pub fn placement(&self) -> (placement: Placement)
        ensures
            placement == self@.placement,
    {
        self.placement
    }

    /// The text on the screen: the label, then the value.
    pub fn text(&self) -> (text: String)
        ensures
            text@ == self@.text(),
    {
        let mut text = self.label.clone();
        text.append(self.value.as_str());
        text
    }

    /// Replaces the value and leaves the rest as it is.
    pub fn set_value(&mut self, value: String)
        ensures
            final(self).tagged() == old(self).tagged(),
            final(self)@ == old(self)@.with_value(value@),
    {
        self.value = value;
    }
}

/// The frame-rate widget as it is at startup: the label `FPS `, no value yet,
/// ten pixels from the left and ten from the bottom.
pub fn setup_debug_fps() -> (widget: Widget<DebugFps>)
    ensures
        widget@ == (WidgetView {
            label: fps_label(),
            value: Seq::empty(),
            style: overlay_style(),
            placement: Placement { left: LEFT, bottom: FPS_BOTTOM },
        }),
{
    proof {
        reveal_strlit("FPS ");
    }
    let style = TextStyle { font_size: FONT_SIZE, color: Rgb { red: 255, green: 255, blue: 255 } };
    let widget = Widget::new(
        DebugFps,
        "FPS ",
        style,
        Placement { left: LEFT, bottom: FPS_BOTTOM },
    );
    assert(widget@.label =~= fps_label());
    widget
}

/// The entity-count widget as it is at startup: the label `ENTITIES `, no
/// value yet, ten pixels from the left and forty from the bottom.
pub fn setup_debug_entity_count() -> (widget: Widget<DebugEntityCount>)
    ensures
        widget@ == (WidgetView {
            label: entity_count_label(),
            value: Seq::empty(),
            style: overlay_style(),
            placement: Placement { left: LEFT, bottom: ENTITY_COUNT_BOTTOM },
        }),
{
    proof {
        reveal_strlit("ENTITIES ");
    }
    let style = TextStyle { font_size: FONT_SIZE, color: Rgb { red: 255, green: 255, blue: 255 } };
    let widget = Widget::new(
        DebugEntityCount,
        "ENTITIES ",
        style,
        Placement { left: LEFT, bottom: ENTITY_COUNT_BOTTOM },
    );
    assert(widget@.label =~= entity_count_label());
    widget
}

} // verus!
