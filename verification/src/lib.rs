//! Drag-and-drop decisions for entities under a pointer: which entity starts
//! being dragged, when a delayed drag begins, which receiver is hovered and
//! where a dragged entity is dropped.
use vstd::prelude::*;

pub mod flags;
pub mod components;
pub mod events;
pub mod inputs;
pub mod start;
pub mod awaiting;
pub mod hover;
pub mod release;
pub mod frame;

verus! {

} // verus!
