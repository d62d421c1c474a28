use bevy_dragndrop::components::Dragging;
use bevy_dragndrop::events::HoveredChange;
use bevy_dragndrop::flags::InputFlags;
use bevy_dragndrop::hover::{first_receiver_hit, follow_pointer, hover_step, DraggingEntry, FollowAction, ReceiverProbe};

fn probe(entity: u64, in_bounds: bool) -> ReceiverProbe {
    ReceiverProbe { entity, in_bounds }
}

fn dragged(entity: u64, hovering: Option<u64>) -> DraggingEntry {
    DraggingEntry { entity, dragging: Dragging { hovering } }
}

fn hover(hovered: u64, receiver: Option<u64>, prevreceiver: Option<u64>, inputs: InputFlags) -> FollowAction {
    FollowAction::Hover { event: HoveredChange { hovered, receiver, prevreceiver, inputs } }
}

#[test]
fn first_receiver_under_pointer_is_found() {
    assert_eq!(first_receiver_hit(&vec![probe(1, false), probe(2, true), probe(3, true)]), Some(2));
    assert_eq!(first_receiver_hit(&vec![probe(1, false)]), None);
    assert_eq!(first_receiver_hit(&Vec::new()), None);
}

#[test]
fn hover_step_reports_only_changes() {
    let i = InputFlags::left_click();
    assert_eq!(hover_step(&dragged(1, Some(4)), Some(4), i), None);
    assert_eq!(hover_step(&dragged(1, None), None, i), None);
    assert_eq!(
        hover_step(&dragged(1, Some(4)), Some(5), i),
        Some(HoveredChange { hovered: 1, receiver: Some(5), prevreceiver: Some(4), inputs: i })
    );
    assert_eq!(
        hover_step(&dragged(1, Some(4)), None, i),
        Some(HoveredChange { hovered: 1, receiver: None, prevreceiver: Some(4), inputs: i })
    );
}

#[test]
fn entering_a_receiver_sends_one_event_and_stops() {
    let i = InputFlags::left_click();
    let es = vec![dragged(10, None), dragged(11, Some(3))];
    let rs = vec![probe(7, false), probe(8, true)];
    let (actions, states) = follow_pointer(i, true, &es, &rs);
    assert_eq!(actions, vec![FollowAction::Follow { entity: 10 }, hover(10, Some(8), None, i)]);
    assert_eq!(states, vec![dragged(10, Some(8)), dragged(11, Some(3))]);
}

#[test]
fn staying_over_the_same_receiver_sends_nothing() {
    let i = InputFlags::left_click();
    let es = vec![dragged(10, Some(8))];
    let rs = vec![probe(8, true)];
    let (actions, states) = follow_pointer(i, true, &es, &rs);
    assert_eq!(actions, vec![FollowAction::Follow { entity: 10 }]);
    assert_eq!(states, es);
}

#[test]
fn leaving_receivers_clears_every_entity() {
    let i = InputFlags::left_click();
    let es = vec![dragged(10, Some(8)), dragged(11, None), dragged(12, Some(9))];
    let rs = vec![probe(8, false), probe(9, false)];
    let (actions, states) = follow_pointer(i, true, &es, &rs);
    assert_eq!(
        actions,
        vec![
            FollowAction::Follow { entity: 10 },
            hover(10, None, Some(8), i),
            FollowAction::Follow { entity: 11 },
            FollowAction::Follow { entity: 12 },
            hover(12, None, Some(9), i),
        ]
    );
    assert_eq!(states, vec![dragged(10, None), dragged(11, None), dragged(12, None)]);
}

#[test]
fn pointer_outside_window_changes_nothing() {
    let i = InputFlags::left_click();
    let es = vec![dragged(10, Some(8))];
    let (actions, states) = follow_pointer(i, false, &es, &vec![probe(3, true)]);
    assert_eq!(actions, vec![]);
    assert_eq!(states, es);
}

#[test]
fn following_again_sends_no_hover_event() {
    let i = InputFlags::left_click();
    let es = vec![dragged(10, Some(8)), dragged(11, Some(2))];
    for rs in [vec![probe(5, true)], vec![probe(5, false)]] {
        let (_, states) = follow_pointer(i, true, &es, &rs);
        let (again, _) = follow_pointer(i, true, &states, &rs);
        assert!(again.iter().all(|a| matches!(a, FollowAction::Follow { .. })));
    }
}
