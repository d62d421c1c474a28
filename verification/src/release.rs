//! Dragged entities are dropped once their mouse buttons are released.
use vstd::prelude::*;
use crate::flags::{bits_intersect, InputFlags, CLICKS};
use crate::components::{Draggable, Dragging};
use crate::events::{Dropped, HoveredChange};
use crate::hover::{first_hit, first_receiver_hit, ReceiverProbe};

verus! {

/// A dragged entity with how it may be dragged and its drag state.
#[derive(Clone, Copy, Debug, PartialEq, Eq, Structural)]
pub struct DropEntry {
    /// The dragged entity.
    pub entity: u64,
    /// How the entity may be dragged.
    pub draggable: Draggable,
    /// Its drag state.
    pub dragging: Dragging,
}

/// A drop: both events are sent and the entity stops being dragged.
#[derive(Clone, Copy, Debug, PartialEq, Eq, Structural)]
pub struct Release {
    /// The entity no longer hovers over anything.
    pub hover_event: HoveredChange,
    /// The entity was dropped, onto the receiver under the pointer if any.
    pub dropped_event: Dropped,
}

/// Whether an entity dragged with `d` is let go: none of the mouse buttons
/// that it requires is still down.
pub open spec fn released(d: Draggable, inputs: InputFlags) -> bool {
    !bits_intersect(inputs.bits, d.required.bits & CLICKS)
}

/// A dragged entity is let go exactly when none of the mouse buttons (bits 1,
/// 2 and 4) that it requires is down; modifier keys play no part.
pub proof fn lemma_released_law(d: Draggable, inputs: InputFlags)
    ensures
        released(d, inputs) <==> inputs.bits & d.required.bits & 7u8 == 0,
{
    let (i, r) = (inputs.bits, d.required.bits);
    assert(i & (r & 7u8) == i & r & 7u8) by (bit_vector);
}

/// The drop of entity `e` onto receiver `hit` (or onto nothing).
pub open spec fn release_for(e: DropEntry, hit: Option<u64>, inputs: InputFlags) -> Release {
    Release {
        hover_event: HoveredChange {
            hovered: e.entity,
            receiver: None,
            prevreceiver: e.dragging.hovering,
            inputs,
        },
        dropped_event: Dropped { dropped: e.entity, received: hit, inputs },
    }
}

/// The drops, in the order given, of the entities that are let go.
pub open spec fn drop_plan(s: Seq<DropEntry>, hit: Option<u64>, inputs: InputFlags) -> Seq<Release>
    decreases s.len(),
{
    if s.len() == 0 {
        Seq::empty()
    } else {
        (if released(s[0].draggable, inputs) {
            seq![release_for(s[0], hit, inputs)]
        } else {
            Seq::empty()
        }) + drop_plan(s.drop_first(), hit, inputs)
    }
}

/// Every drop is of an entity that is let go: it sends a hover event with no
/// new receiver and the entity's last receiver as the old one, and a drop
/// event onto the receiver under the pointer.
pub proof fn lemma_drops_are_released(s: Seq<DropEntry>, hit: Option<u64>, inputs: InputFlags)
    ensures
        forall|i: int|
            0 <= i < drop_plan(s, hit, inputs).len() ==> exists|k: int|
                0 <= k < s.len() && released(s[k].draggable, inputs) && #[trigger] drop_plan(
                    s,
                    hit,
                    inputs,
                )[i] == release_for(#[trigger] s[k], hit, inputs),
    decreases s.len(),
{
    if s.len() > 0 {
        let t = s.drop_first();
        lemma_drops_are_released(t, hit, inputs);
        let h = if released(s[0].draggable, inputs) {
            seq![release_for(s[0], hit, inputs)]
        } else {
            Seq::empty()
        };
        let p = drop_plan(s, hit, inputs);
        let q = drop_plan(t, hit, inputs);
        assert(p == h + q);
        assert forall|i: int| 0 <= i < p.len() implies exists|k: int|
            0 <= k < s.len() && released(s[k].draggable, inputs) && #[trigger] p[i] == release_for(
                #[trigger] s[k],
                hit,
                inputs,
            ) by {
            if i < h.len() {
                assert(p[i] == release_for(s[0], hit, inputs));
            } else {
                assert(p[i] == q[i - h.len()]);
                let k = choose|k: int|
                    0 <= k < t.len() && released(t[k].draggable, inputs) && #[trigger] q[i - h.len()]
                        == release_for(#[trigger] t[k], hit, inputs);
                assert(s[k + 1] == t[k]);
            }
        }
    }
}

/// No entity is dropped while a mouse button that it requires is down.
pub proof fn lemma_held_button_not_dropped(s: Seq<DropEntry>, hit: Option<u64>, inputs: InputFlags)
    ensures
        forall|i: int|
            0 <= i < drop_plan(s, hit, inputs).len() ==> exists|k: int|
                0 <= k < s.len() && #[trigger] drop_plan(s, hit, inputs)[i].dropped_event.dropped
                    == s[k].entity && inputs.bits & s[k].draggable.required.bits & 7u8 == 0,
{
    lemma_drops_are_released(s, hit, inputs);
    assert forall|i: int| 0 <= i < drop_plan(s, hit, inputs).len() implies exists|k: int|
        0 <= k < s.len() && #[trigger] drop_plan(s, hit, inputs)[i].dropped_event.dropped
            == s[k].entity && inputs.bits & s[k].draggable.required.bits & 7u8 == 0 by {
        let k = choose|k: int|
            0 <= k < s.len() && released(s[k].draggable, inputs) && #[trigger] drop_plan(
                s,
                hit,
                inputs,
            )[i] == release_for(#[trigger] s[k], hit, inputs);
        lemma_released_law(s[k].draggable, inputs);
    }
}

/// Every entity that is let go is dropped.
pub proof fn lemma_released_are_dropped(s: Seq<DropEntry>, hit: Option<u64>, inputs: InputFlags)
    ensures
        forall|k: int|
            0 <= k < s.len() && released(#[trigger] s[k].draggable, inputs) ==> drop_plan(
                s,
                hit,
                inputs,
            ).contains(release_for(s[k], hit, inputs)),
    decreases s.len(),
{
    if s.len() > 0 {
        let t = s.drop_first();
        lemma_released_are_dropped(t, hit, inputs);
        let h = if released(s[0].draggable, inputs) {
            seq![release_for(s[0], hit, inputs)]
        } else {
            Seq::empty()
        };
        let p = drop_plan(s, hit, inputs);
        let q = drop_plan(t, hit, inputs);
        assert(p == h + q);
        assert forall|k: int| 0 <= k < s.len() && released(#[trigger] s[k].draggable, inputs) implies p.contains(
            release_for(s[k], hit, inputs),
        ) by {
            if k == 0 {
                assert(p[0] == release_for(s[0], hit, inputs));
            } else {
                assert(t[k - 1] == s[k]);
                assert(released(t[k - 1].draggable, inputs));
                let j = choose|j: int| 0 <= j < q.len() && q[j] == release_for(t[k - 1], hit, inputs);
                assert(p[j + h.len()] == q[j]);
            }
        }
    }
}

/// There are at most as many drops as dragged entities.
pub proof fn lemma_drop_plan_len(s: Seq<DropEntry>, hit: Option<u64>, inputs: InputFlags)
    ensures
        drop_plan(s, hit, inputs).len() <= s.len(),
    decreases s.len(),
{
    if s.len() > 0 {
        lemma_drop_plan_len(s.drop_first(), hit, inputs);
    }
}

/// No entity is listed twice.
pub open spec fn distinct_entities(s: Seq<DropEntry>) -> bool {
    forall|i: int, j: int| 0 <= i < j < s.len() ==> s[i].entity != s[j].entity
}

/// Drops pair up one to one by entity: each drop's hover event and drop event
/// name the same entity, whose drag it ends, and the hover event names no new
/// receiver. When each dragged entity is listed once, as a query lists them,
/// no entity is dropped twice.
pub proof fn lemma_drops_one_per_entity(s: Seq<DropEntry>, hit: Option<u64>, inputs: InputFlags)
    ensures
        forall|i: int|
            0 <= i < drop_plan(s, hit, inputs).len() ==> {
                let r = #[trigger] drop_plan(s, hit, inputs)[i];
                &&& r.hover_event.hovered == r.dropped_event.dropped
                &&& r.hover_event.receiver is None
                &&& r.dropped_event.received == hit
            },
        distinct_entities(s) ==> forall|i: int, j: int|
            0 <= i < j < drop_plan(s, hit, inputs).len() ==> (#[trigger] drop_plan(
                s,
                hit,
                inputs,
            )[i]).dropped_event.dropped != (#[trigger] drop_plan(
                s,
                hit,
                inputs,
            )[j]).dropped_event.dropped,
    decreases s.len(),
{
    lemma_drops_are_released(s, hit, inputs);
    let p = drop_plan(s, hit, inputs);
    assert forall|i: int| 0 <= i < p.len() implies {
        let r = #[trigger] p[i];
        &&& r.hover_event.hovered == r.dropped_event.dropped
        &&& r.hover_event.receiver is None
        &&& r.dropped_event.received == hit
    } by {
        let k = choose|k: int|
            0 <= k < s.len() && released(s[k].draggable, inputs) && #[trigger] p[i] == release_for(
                #[trigger] s[k],
                hit,
                inputs,
            );
    }
    if s.len() > 0 && distinct_entities(s) {
        let t = s.drop_first();
        assert(distinct_entities(t)) by {
            assert forall|i: int, j: int| 0 <= i < j < t.len() implies t[i].entity != t[j].entity by {
                assert(t[i] == s[i + 1] && t[j] == s[j + 1]);
            }
        }
        lemma_drops_one_per_entity(t, hit, inputs);
        lemma_drops_are_released(t, hit, inputs);
        let h = if released(s[0].draggable, inputs) {
            seq![release_for(s[0], hit, inputs)]
        } else {
            Seq::empty()
        };
        let q = drop_plan(t, hit, inputs);
        assert(p == h + q);
        assert forall|i: int, j: int| 0 <= i < j < p.len() implies (#[trigger] p[i]).dropped_event.dropped
            != (#[trigger] p[j]).dropped_event.dropped by {
            if i < h.len() {
                assert(p[j] == q[j - h.len()]);
                let k = choose|k: int|
                    0 <= k < t.len() && released(t[k].draggable, inputs) && #[trigger] q[j - h.len()]
                        == release_for(#[trigger] t[k], hit, inputs);
                assert(t[k] == s[k + 1]);
            } else {
                assert(p[i] == q[i - h.len()]);
                assert(p[j] == q[j - h.len()]);
            }
        }
    }
}

/// Whether an entity dragged with `d` is let go.
pub fn is_released(d: &Draggable, inputs: InputFlags) -> (r: bool)
    ensures
        r == released(*d, inputs),
{
    !inputs.intersects(d.required & InputFlags::clicks())
}

/// The receiver that a drop lands on: the first one under the pointer while
/// the pointer is in the window, and none while it is outside.
pub open spec fn drop_target(pointer_in_window: bool, receivers: Seq<ReceiverProbe>) -> Option<u64> {
    if pointer_in_window {
        first_hit(receivers)
    } else {
        None
    }
}

/// What dropping does this frame.
///
/// Every dragged entity, in the order given, none of whose required mouse
/// buttons is still down is dropped: onto the first receiver under the pointer
/// while the pointer is in the window, else onto nothing. It no longer hovers
/// over anything.
pub fn drop_dragged(
    inputs: InputFlags,
    pointer_in_window: bool,
    entries: &Vec<DropEntry>,
    receivers: &Vec<ReceiverProbe>,
) -> (r: Vec<Release>)
    ensures
        r@ == drop_plan(entries@, drop_target(pointer_in_window, receivers@), inputs),
{
    let mut releases: Vec<Release> = Vec::new();
    let hit = if pointer_in_window {
        first_receiver_hit(receivers)
    } else {
        None
    };
    let ghost s = entries@;
    let n = entries.len();
    let mut i: usize = 0;
    proof {
        assert(s.skip(0) =~= s);
        assert(releases@ + drop_plan(s, hit, inputs) =~= drop_plan(s, hit, inputs));
    }
    while i < n
        invariant
            n == s.len(),
            s == entries@,
            i <= n,
            releases@ + drop_plan(s.skip(i as int), hit, inputs) == drop_plan(s, hit, inputs),
        decreases n - i,
    {
        let ghost before = releases@;
        let e = &entries[i];
        if is_released(&e.draggable, inputs) {
            releases.push(
                Release {
                    hover_event: HoveredChange {
                        hovered: e.entity,
                        receiver: None,
                        prevreceiver: e.dragging.hovering,
                        inputs,
                    },
                    dropped_event: Dropped { dropped: e.entity, received: hit, inputs },
                },
            );
        }
        proof {
            let rest = s.skip(i as int);
            assert(rest[0] == *e);
            assert(rest.drop_first() =~= s.skip(i + 1));
            assert(releases@ + drop_plan(s.skip(i + 1), hit, inputs) =~= before + drop_plan(
                rest,
                hit,
                inputs,
            ));
        }
        i = i + 1;
    }
    proof {
        assert(s.skip(n as int).len() == 0);
        assert(releases@ =~= releases@ + drop_plan(s.skip(n as int), hit, inputs));
    }
    releases
}

} // verus!
