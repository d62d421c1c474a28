use bevy_dragndrop::components::Draggable;
use bevy_dragndrop::flags::{InputFlags, ALL_BITS, CLICKS, MODIFIERS};
use bevy_dragndrop::inputs::{get_inputs, PressedInputs};

fn none_pressed() -> PressedInputs {
    PressedInputs {
        left_mouse: false,
        right_mouse: false,
        middle_mouse: false,
        shift_left: false,
        shift_right: false,
        control_left: false,
        control_right: false,
        alt_left: false,
        alt_right: false,
    }
}

#[test]
fn named_flags_have_their_bits() {
    assert_eq!(InputFlags::left_click().bits(), 0b0000_0001);
    assert_eq!(InputFlags::right_click().bits(), 0b0000_0010);
    assert_eq!(InputFlags::middle_click().bits(), 0b0000_0100);
    assert_eq!(InputFlags::shift().bits(), 0b0000_1000);
    assert_eq!(InputFlags::ctrl().bits(), 0b0001_0000);
    assert_eq!(InputFlags::alt().bits(), 0b0010_0000);
    assert_eq!(InputFlags::clicks().bits(), CLICKS);
    assert_eq!(InputFlags::modifiers().bits(), MODIFIERS);
    assert_eq!(InputFlags::all().bits(), ALL_BITS);
    assert!(InputFlags::empty().is_empty());
}

#[test]
fn groups_are_unions_of_their_members() {
    let clicks = InputFlags::left_click() | InputFlags::right_click() | InputFlags::middle_click();
    assert_eq!(clicks, InputFlags::clicks());
    let mods = InputFlags::shift().union(InputFlags::ctrl()).union(InputFlags::alt());
    assert_eq!(mods, InputFlags::modifiers());
    assert_eq!(InputFlags::clicks() | InputFlags::modifiers(), InputFlags::all());
}

#[test]
fn truncate_drops_unknown_bits() {
    assert_eq!(InputFlags::from_bits_truncate(0xFF).bits(), 0x3F);
    assert_eq!(InputFlags::from_bits_truncate(0b0100_0001).bits(), 0b0000_0001);
    assert_eq!(InputFlags::from_bits_retain(0xFF).bits(), 0xFF);
}

#[test]
fn contains_and_intersects() {
    let held = InputFlags::left_click() | InputFlags::shift();
    assert!(held.contains(InputFlags::left_click()));
    assert!(held.contains(InputFlags::shift() | InputFlags::left_click()));
    assert!(!held.contains(InputFlags::left_click() | InputFlags::ctrl()));
    assert!(held.contains(InputFlags::empty()));
    assert!(held.intersects(InputFlags::clicks()));
    assert!(!held.intersects(InputFlags::right_click() | InputFlags::alt()));
    assert!(!held.intersects(InputFlags::empty()));
    assert_eq!(held & InputFlags::clicks(), InputFlags::left_click());
    assert_eq!(held.intersection(InputFlags::modifiers()), InputFlags::shift());
}

#[test]
fn scaling_by_one_keeps_and_by_zero_clears() {
    assert_eq!(InputFlags::ctrl() * 1, InputFlags::ctrl());
    assert_eq!(InputFlags::ctrl() * 0, InputFlags::empty());
    assert_eq!(InputFlags::all() * 1, InputFlags::all());
    assert_eq!((InputFlags::left_click() * 2).bits(), 0b10);
    assert_eq!((InputFlags::alt() * 2).bits(), 0);
}

#[test]
fn no_input_pressed_gives_no_flag() {
    assert!(get_inputs(&none_pressed()).is_empty());
}

#[test]
fn each_button_sets_its_flag() {
    let mut p = none_pressed();
    p.left_mouse = true;
    assert_eq!(get_inputs(&p), InputFlags::left_click());
    let mut p = none_pressed();
    p.right_mouse = true;
    assert_eq!(get_inputs(&p), InputFlags::right_click());
    let mut p = none_pressed();
    p.middle_mouse = true;
    assert_eq!(get_inputs(&p), InputFlags::middle_click());
}

#[test]
fn either_modifier_key_sets_its_flag() {
    let mut p = none_pressed();
    p.shift_right = true;
    assert_eq!(get_inputs(&p), InputFlags::shift());
    let mut p = none_pressed();
    p.shift_left = true;
    p.shift_right = true;
    assert_eq!(get_inputs(&p), InputFlags::shift());
    let mut p = none_pressed();
    p.control_left = true;
    assert_eq!(get_inputs(&p), InputFlags::ctrl());
    let mut p = none_pressed();
    p.alt_right = true;
    p.left_mouse = true;
    assert_eq!(get_inputs(&p), InputFlags::alt() | InputFlags::left_click());
}

#[test]
fn everything_pressed_gives_all_flags() {
    let p = PressedInputs {
        left_mouse: true,
        right_mouse: true,
        middle_mouse: true,
        shift_left: true,
        shift_right: false,
        control_left: false,
        control_right: true,
        alt_left: true,
        alt_right: true,
    };
    assert_eq!(get_inputs(&p), InputFlags::all());
}

#[test]
fn default_draggable_uses_left_button_at_once() {
    let d = Draggable::default();
    assert_eq!(d.required, InputFlags::left_click());
    assert_eq!(d.disallowed, InputFlags::right_click() | InputFlags::middle_click());
    assert_eq!(d.minimum_held, None);
}
