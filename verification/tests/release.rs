use bevy_dragndrop::components::{Draggable, Dragging};
use bevy_dragndrop::events::{Dropped, HoveredChange};
use bevy_dragndrop::flags::InputFlags;
use bevy_dragndrop::hover::ReceiverProbe;
use bevy_dragndrop::release::{drop_dragged, is_released, DropEntry, Release};

fn entry(entity: u64, required: InputFlags, hovering: Option<u64>) -> DropEntry {
    DropEntry {
        entity,
        draggable: Draggable { required, disallowed: InputFlags::empty(), minimum_held: None },
        dragging: Dragging { hovering },
    }
}

fn release(entity: u64, prev: Option<u64>, received: Option<u64>, inputs: InputFlags) -> Release {
    Release {
        hover_event: HoveredChange { hovered: entity, receiver: None, prevreceiver: prev, inputs },
        dropped_event: Dropped { dropped: entity, received, inputs },
    }
}

#[test]
fn releasing_the_button_drops_onto_the_receiver() {
    let inputs = InputFlags::empty();
    let es = vec![entry(1, InputFlags::left_click(), Some(6))];
    let rs = vec![ReceiverProbe { entity: 5, in_bounds: false }, ReceiverProbe { entity: 6, in_bounds: true }];
    assert_eq!(drop_dragged(inputs, true, &es, &rs), vec![release(1, Some(6), Some(6), inputs)]);
}

#[test]
fn dropping_outside_receivers_receives_nothing() {
    let inputs = InputFlags::shift();
    let es = vec![entry(1, InputFlags::left_click(), None)];
    let rs = vec![ReceiverProbe { entity: 5, in_bounds: false }];
    assert_eq!(drop_dragged(inputs, true, &es, &rs), vec![release(1, None, None, inputs)]);
}

#[test]
fn held_button_keeps_the_drag() {
    let inputs = InputFlags::left_click();
    let es = vec![entry(1, InputFlags::left_click(), None)];
    assert_eq!(drop_dragged(inputs, true, &es, &Vec::new()), vec![]);
}

#[test]
fn only_required_buttons_matter() {
    let required = InputFlags::left_click() | InputFlags::shift();
    assert!(is_released(&entry(1, required, None).draggable, InputFlags::shift()));
    assert!(!is_released(&entry(1, required, None).draggable, InputFlags::left_click()));
    assert!(is_released(&entry(1, required, None).draggable, InputFlags::right_click()));
}

#[test]
fn each_released_entity_is_dropped_in_order() {
    let inputs = InputFlags::right_click();
    let es = vec![
        entry(1, InputFlags::left_click(), Some(4)),
        entry(2, InputFlags::right_click(), None),
        entry(3, InputFlags::middle_click(), None),
    ];
    let rs = vec![ReceiverProbe { entity: 4, in_bounds: true }];
    assert_eq!(
        drop_dragged(inputs, true, &es, &rs),
        vec![release(1, Some(4), Some(4), inputs), release(3, None, Some(4), inputs)]
    );
}

#[test]
fn pointer_outside_window_drops_onto_nothing() {
    let inputs = InputFlags::empty();
    let es = vec![entry(1, InputFlags::left_click(), Some(4)), entry(2, InputFlags::right_click(), None)];
    let rs = vec![ReceiverProbe { entity: 4, in_bounds: true }];
    assert_eq!(
        drop_dragged(inputs, false, &es, &rs),
        vec![release(1, Some(4), None, inputs), release(2, None, None, inputs)]
    );
}

#[test]
fn pointer_outside_window_keeps_held_drags() {
    let es = vec![entry(1, InputFlags::left_click(), None)];
    assert_eq!(drop_dragged(InputFlags::left_click(), false, &es, &Vec::new()), vec![]);
}
