use bevy_dragndrop::components::{AwaitingDrag, Draggable, Dragging};
use bevy_dragndrop::events::{DragAwait, Dragged};
use bevy_dragndrop::flags::InputFlags;
use bevy_dragndrop::start::{accepts_inputs, may_start_drag, start_drag, top_candidate, DragCandidate, StartDrag};

fn cand(entity: u64, in_bounds: bool, z_order: i64) -> DragCandidate {
    DragCandidate { entity, in_bounds, z_order, draggable: Draggable::default() }
}

fn left() -> InputFlags {
    InputFlags::left_click()
}

#[test]
fn nearest_candidate_under_pointer_is_dragged() {
    let cs = vec![cand(1, true, 3), cand(2, true, 7), cand(3, true, 5)];
    let r = start_drag(left(), false, false, &cs, 100);
    assert_eq!(
        r,
        StartDrag::Drag {
            drag_event: Dragged { dragged: 2, inputs: left() },
            dragging: Dragging { hovering: None },
        }
    );
}

#[test]
fn first_of_equally_near_candidates_is_picked() {
    let cs = vec![cand(1, true, 2), cand(2, true, 9), cand(3, true, 9)];
    assert_eq!(top_candidate(left(), &cs), Some(1));
}

#[test]
fn candidates_outside_or_refusing_are_skipped() {
    let mut needs_shift = cand(4, true, 50);
    needs_shift.draggable.required = InputFlags::left_click() | InputFlags::shift();
    let cs = vec![cand(1, false, 100), needs_shift, cand(3, true, -4)];
    assert_eq!(top_candidate(left(), &cs), Some(2));
    let r = start_drag(left(), false, false, &cs, 0);
    assert_eq!(
        r,
        StartDrag::Drag {
            drag_event: Dragged { dragged: 3, inputs: left() },
            dragging: Dragging { hovering: None },
        }
    );
}

#[test]
fn disallowed_input_blocks_the_drag() {
    let inputs = InputFlags::left_click() | InputFlags::right_click();
    let cs = vec![cand(1, true, 0)];
    assert!(!accepts_inputs(&cs[0].draggable, inputs));
    assert_eq!(start_drag(inputs, false, false, &cs, 0), StartDrag::Idle);
}

#[test]
fn nothing_starts_without_a_click() {
    let cs = vec![cand(1, true, 0)];
    assert!(!may_start_drag(InputFlags::shift(), false, false));
    assert_eq!(start_drag(InputFlags::shift(), false, false, &cs, 0), StartDrag::Idle);
}

#[test]
fn nothing_starts_while_dragging_or_waiting() {
    let cs = vec![cand(1, true, 0)];
    assert_eq!(start_drag(left(), true, false, &cs, 0), StartDrag::Idle);
    assert_eq!(start_drag(left(), false, true, &cs, 0), StartDrag::Idle);
    assert!(may_start_drag(left(), false, false));
}

#[test]
fn nothing_starts_when_no_candidate_fits() {
    let cs = vec![cand(1, false, 0), cand(2, false, 1)];
    assert_eq!(top_candidate(left(), &cs), None);
    assert_eq!(start_drag(left(), false, false, &cs, 0), StartDrag::Idle);
    assert_eq!(start_drag(left(), false, false, &Vec::new(), 0), StartDrag::Idle);
}

#[test]
fn minimum_hold_makes_the_entity_wait() {
    let mut c = cand(9, true, 0);
    c.draggable.minimum_held = Some(150_000_000);
    let r = start_drag(left(), false, false, &vec![c], 2_000_000_000);
    assert_eq!(
        r,
        StartDrag::Await {
            await_event: DragAwait { awaiting: 9, inputs: left() },
            awaiting: AwaitingDrag { ends: 2_150_000_000 },
        }
    );
}

#[test]
fn wait_end_saturates() {
    let mut c = cand(9, true, 0);
    c.draggable.minimum_held = Some(u64::MAX - 5);
    let r = start_drag(left(), false, false, &vec![c], 10);
    assert_eq!(
        r,
        StartDrag::Await {
            await_event: DragAwait { awaiting: 9, inputs: left() },
            awaiting: AwaitingDrag { ends: u64::MAX },
        }
    );
}
