//! The events that the drag-and-drop decisions emit.
use vstd::prelude::*;
use crate::flags::InputFlags;

verus! {

/// Sent when an entity is released.
#[derive(Clone, Copy, Debug, PartialEq, Eq, Structural)]
pub struct Dropped {
    /// Entity that was dropped.
    pub dropped: u64,
    /// Entity that received the dropped entity, if any.
    pub received: Option<u64>,
    /// Inputs at the time of the event being sent.
    pub inputs: InputFlags,
}

/// Sent when an entity has just begun being dragged.
#[derive(Clone, Copy, Debug, PartialEq, Eq, Structural)]
pub struct Dragged {
    /// Entity that is being dragged.
    pub dragged: u64,
    /// Inputs at the time of the event being sent.
    pub inputs: InputFlags,
}

/// Sent when an entity starts waiting for a minimum time to elapse before dragging.
#[derive(Clone, Copy, Debug, PartialEq, Eq, Structural)]
pub struct DragAwait {
    /// Entity that is waiting to be dragged.
    pub awaiting: u64,
    /// Inputs at the time of the event being sent.
    pub inputs: InputFlags,
}

/// Sent when a dragged entity is hovered over a new receiver, and when it is dropped.
#[derive(Clone, Copy, Debug, PartialEq, Eq, Structural)]
pub struct HoveredChange {
    /// The entity that is being dragged.
    pub hovered: u64,
    /// The receiver now hovered over; `None` if no receiver is hovered over
    /// or if the entity has been dropped.
    pub receiver: Option<u64>,
    /// The receiver that was hovered over before, if any.
    pub prevreceiver: Option<u64>,
    /// Inputs at the time of the event being sent.
    pub inputs: InputFlags,
}

} // verus!
