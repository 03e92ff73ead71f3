//! Messages of the canvas component that hosts the map view.

use vstd::prelude::*;

verus! {

/// What the canvas component reacts to.
#[derive(Clone, Copy, Debug, PartialEq, Eq, Structural)]
pub enum GuiMsg {
    /// Start drawing into the canvas.
    Redraw,
    /// The wheel turned away from the user at this position.
    ZoomOut(i32, i32),
    /// The wheel turned towards the user at this position.
    ZoomIn(i32, i32),
}

/// The canvas component takes no properties.
#[derive(Clone, Copy, Debug, PartialEq, Eq, Structural)]
pub struct GuiProps {}

impl GuiMsg {
    /// The message for a wheel turn at `(x, y)`: a positive vertical delta
    /// zooms out, any other zooms in.
    pub fn from_wheel(delta_is_positive: bool, x: i32, y: i32) -> (r: GuiMsg)
        ensures
            delta_is_positive ==> r == GuiMsg::ZoomOut(x, y),
            !delta_is_positive ==> r == GuiMsg::ZoomIn(x, y),
    {
        if delta_is_positive {
            GuiMsg::ZoomOut(x, y)
        } else {
            GuiMsg::ZoomIn(x, y)
        }
    }

    /// Whether the component must render again after the message: starting
    /// to draw hands the canvas over and needs no render of its own.
    pub fn needs_render(&self) -> (r: bool)
        ensures
            r == !(*self is Redraw),
    {
        match self {
            GuiMsg::Redraw => false,
            _ => true,
        }
    }
}

} // verus!
