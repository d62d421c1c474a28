use bevy_dragndrop::awaiting::{await_drag, AwaitAction, AwaitingEntry};
use bevy_dragndrop::components::{AwaitingDrag, Draggable, Dragging};
use bevy_dragndrop::events::Dragged;
use bevy_dragndrop::flags::InputFlags;

fn entry(entity: u64, required: InputFlags, ends: u64) -> AwaitingEntry {
    AwaitingEntry {
        entity,
        draggable: Draggable { required, disallowed: InputFlags::empty(), minimum_held: Some(10) },
        awaiting: AwaitingDrag { ends },
    }
}

fn begin(entity: u64, inputs: InputFlags) -> AwaitAction {
    AwaitAction::Begin {
        event: Dragged { dragged: entity, inputs },
        dragging: Dragging { hovering: None },
    }
}

#[test]
fn wait_over_begins_the_drag() {
    let inputs = InputFlags::left_click();
    let es = vec![entry(5, InputFlags::left_click(), 100)];
    assert_eq!(await_drag(inputs, &es, 101), vec![begin(5, inputs)]);
}

#[test]
fn wait_not_over_does_nothing() {
    let inputs = InputFlags::left_click();
    let es = vec![entry(5, InputFlags::left_click(), 100)];
    assert_eq!(await_drag(inputs, &es, 100), vec![]);
    assert_eq!(await_drag(inputs, &es, 3), vec![]);
}

#[test]
fn released_inputs_cancel_the_wait() {
    let es = vec![entry(5, InputFlags::left_click(), 100)];
    assert_eq!(await_drag(InputFlags::empty(), &es, 500), vec![AwaitAction::Cancel { entity: 5 }]);
}

#[test]
fn entries_before_the_first_accepting_one_are_cancelled_and_later_ones_left() {
    let inputs = InputFlags::right_click();
    let es = vec![
        entry(1, InputFlags::left_click(), 0),
        entry(2, InputFlags::middle_click(), 0),
        entry(3, InputFlags::right_click(), 0),
        entry(4, InputFlags::left_click(), 0),
    ];
    assert_eq!(
        await_drag(inputs, &es, 1),
        vec![AwaitAction::Cancel { entity: 1 }, AwaitAction::Cancel { entity: 2 }, begin(3, inputs)]
    );
    assert_eq!(
        await_drag(inputs, &es, 0),
        vec![AwaitAction::Cancel { entity: 1 }, AwaitAction::Cancel { entity: 2 }]
    );
}

#[test]
fn no_waiting_entity_no_step() {
    assert_eq!(await_drag(InputFlags::left_click(), &Vec::new(), 7), vec![]);
}
