//! The state that an entity carries while it can be dragged, waits to be
//! dragged, or is dragged. An entity is named by its 64-bit identifier and a
//! time is a count of nanoseconds.
use vstd::prelude::*;
use crate::flags::{InputFlags, LEFT_CLICK, RIGHT_CLICK, MIDDLE_CLICK};

verus! {

/// What makes an entity draggable.
#[derive(Clone, Copy, Debug, PartialEq, Eq, Structural)]
pub struct Draggable {
    /// All of these inputs must be pressed down for dragging to initiate.
    pub required: InputFlags,
    /// Dragging will not initiate if any of these are held down.
    pub disallowed: InputFlags,
    /// Minimum time in nanoseconds for which the inputs must be held before
    /// dragging initiates.
    pub minimum_held: Option<u64>,
}

impl Default for Draggable {
    /// Dragged with the left button, never while the right or the middle
    /// button is down, and at once.
    fn default() -> (d: Draggable)
        ensures
            d.required.bits == LEFT_CLICK,
            d.disallowed.bits == RIGHT_CLICK | MIDDLE_CLICK,
            d.minimum_held is None,
    {
        Draggable {
            required: InputFlags::left_click(),
            disallowed: InputFlags::right_click() | InputFlags::middle_click(),
            minimum_held: None,
        }
    }
}

/// Marks an entity that is actively being dragged.
#[derive(Clone, Copy, Debug, PartialEq, Eq, Structural)]
pub struct Dragging {
    /// The receiver that the entity was last found over, if any.
    pub hovering: Option<u64>,
}

/// Marks an entity that waits for a minimum time to elapse before it is dragged.
#[derive(Clone, Copy, Debug, PartialEq, Eq, Structural)]
pub struct AwaitingDrag {
    /// The time, in nanoseconds, after which dragging may begin.
    pub ends: u64,
}

} // verus!
