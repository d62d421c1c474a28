use bevy_dragndrop::awaiting::{await_drag, AwaitAction, AwaitingEntry};
use bevy_dragndrop::components::Draggable;
use bevy_dragndrop::events::HoveredChange;
use bevy_dragndrop::flags::InputFlags;
use bevy_dragndrop::hover::{follow_pointer, DraggingEntry, FollowAction, ReceiverProbe};
use bevy_dragndrop::release::{drop_dragged, DropEntry};
use bevy_dragndrop::start::{start_drag, DragCandidate, StartDrag};

fn held_draggable() -> Draggable {
    let mut d = Draggable::default();
    d.minimum_held = Some(150);
    d
}

#[test]
fn delayed_drag_hover_and_drop_keep_one_entity_in_play() {
    let left = InputFlags::left_click();
    let none = InputFlags::empty();
    let candidates = vec![
        DragCandidate { entity: 1, in_bounds: false, z_order: 9, draggable: Draggable::default() },
        DragCandidate { entity: 2, in_bounds: true, z_order: 1, draggable: held_draggable() },
    ];

    // Frame 1: the click lands on entity 2, which must wait.
    let awaiting = match start_drag(left, false, false, &candidates, 1000) {
        StartDrag::Await { await_event, awaiting } => {
            assert_eq!(await_event.awaiting, 2);
            awaiting
        }
        other => panic!("unexpected {:?}", other),
    };
    assert_eq!(awaiting.ends, 1150);
    let waiting = vec![AwaitingEntry { entity: 2, draggable: held_draggable(), awaiting }];

    // Frame 2: still waiting; no other drag can start meanwhile.
    assert_eq!(start_drag(left, false, true, &candidates, 1100), StartDrag::Idle);
    assert_eq!(await_drag(left, &waiting, 1100), vec![]);

    // Frame 3: the wait is over, the drag begins.
    let steps = await_drag(left, &waiting, 1151);
    assert_eq!(steps.len(), 1);
    let dragging = match steps[0] {
        AwaitAction::Begin { event, dragging } => {
            assert_eq!(event.dragged, 2);
            dragging
        }
        other => panic!("unexpected {:?}", other),
    };
    assert_eq!(start_drag(left, true, false, &candidates, 1151), StartDrag::Idle);

    // Frame 4: dragged over receiver 7.
    let entries = vec![DraggingEntry { entity: 2, dragging }];
    let receivers = vec![ReceiverProbe { entity: 6, in_bounds: false }, ReceiverProbe { entity: 7, in_bounds: true }];
    let (actions, states) = follow_pointer(left, true, &entries, &receivers);
    assert_eq!(
        actions,
        vec![
            FollowAction::Follow { entity: 2 },
            FollowAction::Hover {
                event: HoveredChange { hovered: 2, receiver: Some(7), prevreceiver: None, inputs: left },
            },
        ]
    );

    // Frame 5: released over receiver 7, dropped onto it.
    let drop_entries = vec![DropEntry { entity: 2, draggable: held_draggable(), dragging: states[0].dragging }];
    let (_, states) = follow_pointer(none, true, &entries_from(&drop_entries), &receivers);
    assert_eq!(states[0].dragging.hovering, Some(7));
    let releases = drop_dragged(none, true, &drop_entries, &receivers);
    assert_eq!(releases.len(), 1);
    assert_eq!(releases[0].dropped_event.received, Some(7));
    assert_eq!(releases[0].hover_event.prevreceiver, Some(7));
    assert_eq!(releases[0].hover_event.receiver, None);
}

fn entries_from(d: &Vec<DropEntry>) -> Vec<DraggingEntry> {
    d.iter().map(|e| DraggingEntry { entity: e.entity, dragging: e.dragging }).collect()
}

#[test]
fn waiting_entity_whose_button_is_released_stops_waiting_and_nothing_is_dragged() {
    let waiting = vec![AwaitingEntry {
        entity: 2,
        draggable: held_draggable(),
        awaiting: bevy_dragndrop::components::AwaitingDrag { ends: 10 },
    }];
    assert_eq!(await_drag(InputFlags::empty(), &waiting, 50), vec![AwaitAction::Cancel { entity: 2 }]);
}

#[test]
fn minimum_hold_over_several_calls() {
    let left = InputFlags::left_click();
    let mut c = DragCandidate { entity: 4, in_bounds: true, z_order: 0, draggable: held_draggable() };
    c.draggable.minimum_held = Some(100);
    let awaiting = match start_drag(left, false, false, &vec![c], 50) {
        StartDrag::Await { awaiting, .. } => awaiting,
        other => panic!("unexpected {:?}", other),
    };
    assert_eq!(awaiting.ends, 150);
    let waiting = vec![AwaitingEntry { entity: 4, draggable: c.draggable, awaiting }];
    let mut begun_at = None;
    for (k, t) in [60u64, 120, 150, 151, 200].iter().enumerate() {
        let steps = await_drag(left, &waiting, *t);
        if !steps.is_empty() {
            begun_at = Some(k);
            break;
        }
    }
    assert_eq!(begun_at, Some(3));
    // inputs released at the second call: the wait is cancelled then.
    assert_eq!(await_drag(left, &waiting, 60), vec![]);
    assert_eq!(await_drag(InputFlags::empty(), &waiting, 120), vec![AwaitAction::Cancel { entity: 4 }]);
}

#[test]
fn each_dropped_entity_gets_one_drop_and_one_hover_event() {
    let none = InputFlags::empty();
    let entries = vec![
        DropEntry { entity: 1, draggable: Draggable::default(), dragging: bevy_dragndrop::components::Dragging { hovering: Some(9) } },
        DropEntry { entity: 2, draggable: Draggable::default(), dragging: bevy_dragndrop::components::Dragging { hovering: None } },
    ];
    let releases = drop_dragged(none, true, &entries, &Vec::new());
    assert_eq!(releases.len(), 2);
    for r in &releases {
        assert_eq!(r.hover_event.hovered, r.dropped_event.dropped);
        assert_eq!(r.hover_event.receiver, None);
    }
    assert_ne!(releases[0].dropped_event.dropped, releases[1].dropped_event.dropped);
    assert_eq!(releases[0].hover_event.prevreceiver, Some(9));
}
