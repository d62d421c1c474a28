//! Dragged entities follow the pointer, and note the receiver they hover over.
use vstd::prelude::*;
use crate::flags::InputFlags;
use crate::components::Dragging;
use crate::events::HoveredChange;

verus! {

/// A receiver as the pointer finds it this frame.
#[derive(Clone, Copy, Debug, PartialEq, Eq, Structural)]
pub struct ReceiverProbe {
    /// The receiving entity.
    pub entity: u64,
    /// Whether the pointer lies within the receiver's bounds.
    pub in_bounds: bool,
}

/// A dragged entity and its drag state.
#[derive(Clone, Copy, Debug, PartialEq, Eq, Structural)]
pub struct DraggingEntry {
    /// The dragged entity.
    pub entity: u64,
    /// Its drag state.
    pub dragging: Dragging,
}

/// A step taken for the dragged entities.
#[derive(Clone, Copy, Debug, PartialEq, Eq, Structural)]
pub enum FollowAction {
    /// The entity is moved to the pointer.
    Follow { entity: u64 },
    /// The entity now hovers over another receiver, or over none: the event is sent.
    Hover { event: HoveredChange },
}

/// The first receiver, in the order given, that lies under the pointer.
pub open spec fn first_hit(s: Seq<ReceiverProbe>) -> Option<u64>
    decreases s.len(),
{
    if s.len() == 0 {
        None
    } else if s[0].in_bounds {
        Some(s[0].entity)
    } else {
        first_hit(s.drop_first())
    }
}

/// The receiver found is the first one under the pointer; none is found when
/// no receiver lies under the pointer.
pub proof fn lemma_first_hit(s: Seq<ReceiverProbe>)
    ensures
        first_hit(s) is None <==> forall|k: int| 0 <= k < s.len() ==> !(#[trigger] s[k]).in_bounds,
        first_hit(s) is Some ==> exists|k: int|
            0 <= k < s.len() && (#[trigger] s[k]).in_bounds && s[k].entity == first_hit(s)->0
                && forall|j: int| 0 <= j < k ==> !(#[trigger] s[j]).in_bounds,
    decreases s.len(),
{
    if s.len() > 0 && !s[0].in_bounds {
        let t = s.drop_first();
        lemma_first_hit(t);
        assert forall|k: int| 1 <= k < s.len() implies s[k] == t[k - 1] by {}
        if first_hit(t) is Some {
            let k = choose|k: int|
                0 <= k < t.len() && (#[trigger] t[k]).in_bounds && t[k].entity == first_hit(t)->0
                    && forall|j: int| 0 <= j < k ==> !(#[trigger] t[j]).in_bounds;
            assert(s[k + 1] == t[k]);
            assert forall|j: int| 0 <= j < k + 1 implies !(#[trigger] s[j]).in_bounds by {
                if j > 0 {
                    assert(s[j] == t[j - 1]);
                }
            }
        } else {
            assert forall|k: int| 0 <= k < s.len() implies !(#[trigger] s[k]).in_bounds by {
                if k > 0 {
                    assert(s[k] == t[k - 1]);
                }
            }
        }
    } else if s.len() > 0 {
        assert(s[0].in_bounds);
    }
}

/// The event for an entity that now lies over receiver `hit` (or over none):
/// none when it already hovered over `hit`, or over nothing and lies over nothing.
pub open spec fn hover_change(e: DraggingEntry, hit: Option<u64>, inputs: InputFlags) -> Option<
    HoveredChange,
> {
    if e.dragging.hovering == hit {
        None
    } else {
        Some(
            HoveredChange {
                hovered: e.entity,
                receiver: hit,
                prevreceiver: e.dragging.hovering,
                inputs,
            },
        )
    }
}

/// A hover event goes out exactly when the receiver under the pointer differs
/// from the one the entity noted, whatever the inputs, and it names the
/// entity, the new receiver, the old one and the inputs.
pub proof fn lemma_hover_change_law(e: DraggingEntry, hit: Option<u64>, inputs: InputFlags)
    ensures
        hover_change(e, hit, inputs) is Some <==> e.dragging.hovering != hit,
        hover_change(e, hit, inputs) is Some ==> hover_change(e, hit, inputs)->0 == (HoveredChange {
            hovered: e.entity,
            receiver: hit,
            prevreceiver: e.dragging.hovering,
            inputs,
        }),
{
}

/// The steps for one dragged entity: it follows the pointer, and its hover
/// event if there is one.
pub open spec fn entry_steps(e: DraggingEntry, hit: Option<u64>, inputs: InputFlags) -> Seq<
    FollowAction,
> {
    seq![FollowAction::Follow { entity: e.entity }] + match hover_change(e, hit, inputs) {
        Some(ev) => seq![FollowAction::Hover { event: ev }],
        None => Seq::empty(),
    }
}

/// The steps for the dragged entities in the order given, while the pointer is
/// in the window. When a receiver lies under the pointer, only the first entity
/// is handled; otherwise every one is.
pub open spec fn follow_plan(s: Seq<DraggingEntry>, hit: Option<u64>, inputs: InputFlags) -> Seq<
    FollowAction,
>
    decreases s.len(),
{
    if s.len() == 0 {
        Seq::empty()
    } else if hit is Some {
        entry_steps(s[0], hit, inputs)
    } else {
        entry_steps(s[0], hit, inputs) + follow_plan(s.drop_first(), hit, inputs)
    }
}

/// The drag state of entity `e` once it is handled: it hovers over `hit`.
pub open spec fn settled(e: DraggingEntry, hit: Option<u64>) -> DraggingEntry {
    DraggingEntry { entity: e.entity, dragging: Dragging { hovering: hit } }
}

/// Whether the entity at index `i` is handled this frame.
pub open spec fn handled(hit: Option<u64>, i: int) -> bool {
    hit is None || i == 0
}

/// The drag states after the entities are handled.
pub open spec fn follow_state(s: Seq<DraggingEntry>, hit: Option<u64>) -> Seq<DraggingEntry> {
    Seq::new(s.len(), |i: int| if handled(hit, i) { settled(s[i], hit) } else { s[i] })
}

/// Every hover event is about a handled entity: it names the receiver under
/// the pointer (or none) as the new one and the receiver that the entity noted
/// before as the old one, and the two differ.
pub proof fn lemma_hover_events_change(s: Seq<DraggingEntry>, hit: Option<u64>, inputs: InputFlags)
    ensures
        forall|i: int|
            0 <= i < follow_plan(s, hit, inputs).len() && (#[trigger] follow_plan(
                s,
                hit,
                inputs,
            )[i]) is Hover ==> {
                let ev = follow_plan(s, hit, inputs)[i]->Hover_event;
                &&& ev.receiver == hit
                &&& ev.receiver != ev.prevreceiver
                &&& ev.inputs == inputs
                &&& exists|k: int|
                    0 <= k < s.len() && handled(hit, k) && #[trigger] s[k].entity == ev.hovered
                        && s[k].dragging.hovering == ev.prevreceiver
            },
    decreases s.len(),
{
    if s.len() > 0 {
        let p = follow_plan(s, hit, inputs);
        let h = entry_steps(s[0], hit, inputs);
        if hit is None {
            let t = s.drop_first();
            lemma_hover_events_change(t, hit, inputs);
            let q = follow_plan(t, hit, inputs);
            assert(p == h + q);
            assert forall|i: int| 0 <= i < p.len() && (#[trigger] p[i]) is Hover implies {
                let ev = p[i]->Hover_event;
                &&& ev.receiver == hit
                &&& ev.receiver != ev.prevreceiver
                &&& ev.inputs == inputs
                &&& exists|k: int|
                    0 <= k < s.len() && handled(hit, k) && #[trigger] s[k].entity == ev.hovered
                        && s[k].dragging.hovering == ev.prevreceiver
            } by {
                if i < h.len() {
                    assert(s[0].entity == p[i]->Hover_event.hovered);
                } else {
                    assert(p[i] == q[i - h.len()]);
                    let k = choose|k: int|
                        0 <= k < t.len() && handled(hit, k) && #[trigger] t[k].entity
                            == q[i - h.len()]->Hover_event.hovered && t[k].dragging.hovering
                            == q[i - h.len()]->Hover_event.prevreceiver;
                    assert(s[k + 1] == t[k]);
                }
            }
        } else {
            assert forall|i: int| 0 <= i < p.len() && (#[trigger] p[i]) is Hover implies {
                let ev = p[i]->Hover_event;
                &&& ev.receiver == hit
                &&& ev.receiver != ev.prevreceiver
                &&& ev.inputs == inputs
                &&& exists|k: int|
                    0 <= k < s.len() && handled(hit, k) && #[trigger] s[k].entity == ev.hovered
                        && s[k].dragging.hovering == ev.prevreceiver
            } by {
                assert(s[0].entity == p[i]->Hover_event.hovered);
            }
        }
    }
}

/// Every handled entity whose noted receiver differs from the one under the
/// pointer gets a hover event, whatever the inputs.
pub proof fn lemma_changed_entities_get_hover(s: Seq<DraggingEntry>, hit: Option<u64>, inputs: InputFlags)
    ensures
        forall|k: int|
            0 <= k < s.len() && handled(hit, k) && (#[trigger] s[k]).dragging.hovering != hit
                ==> follow_plan(s, hit, inputs).contains(
                (FollowAction::Hover {
                    event: HoveredChange {
                        hovered: s[k].entity,
                        receiver: hit,
                        prevreceiver: s[k].dragging.hovering,
                        inputs,
                    },
                }),
            ),
    decreases s.len(),
{
    if s.len() > 0 {
        let p = follow_plan(s, hit, inputs);
        let h = entry_steps(s[0], hit, inputs);
        assert(s[0].dragging.hovering != hit ==> h[1] == FollowAction::Hover {
            event: HoveredChange {
                hovered: s[0].entity,
                receiver: hit,
                prevreceiver: s[0].dragging.hovering,
                inputs,
            },
        });
        if hit is None {
            let t = s.drop_first();
            lemma_changed_entities_get_hover(t, hit, inputs);
            let q = follow_plan(t, hit, inputs);
            assert(p == h + q);
            assert forall|k: int|
                0 <= k < s.len() && handled(hit, k) && (#[trigger] s[k]).dragging.hovering != hit
                implies p.contains(
                FollowAction::Hover {
                    event: HoveredChange {
                        hovered: s[k].entity,
                        receiver: hit,
                        prevreceiver: s[k].dragging.hovering,
                        inputs,
                    },
                },
            ) by {
                if k == 0 {
                    assert(p[1] == h[1]);
                } else {
                    assert(t[k - 1] == s[k]);
                    assert(handled(hit, k - 1));
                    let ev = FollowAction::Hover {
                        event: HoveredChange {
                            hovered: s[k].entity,
                            receiver: hit,
                            prevreceiver: s[k].dragging.hovering,
                            inputs,
                        },
                    };
                    assert(q.contains(ev));
                    let j = choose|j: int| 0 <= j < q.len() && q[j] == ev;
                    assert(p[j + h.len()] == q[j]);
                }
            }
        } else {
            assert forall|k: int|
                0 <= k < s.len() && handled(hit, k) && (#[trigger] s[k]).dragging.hovering != hit
                implies p.contains(
                FollowAction::Hover {
                    event: HoveredChange {
                        hovered: s[k].entity,
                        receiver: hit,
                        prevreceiver: s[k].dragging.hovering,
                        inputs,
                    },
                },
            ) by {
                assert(k == 0);
                assert(p[1] == h[1]);
            }
        }
    }
}

/// Steps for entities that all hover over nothing, while nothing lies under
/// the pointer, send no hover event.
proof fn lemma_unhovered_plan_quiet(s: Seq<DraggingEntry>, inputs: InputFlags)
    requires
        forall|k: int| 0 <= k < s.len() ==> (#[trigger] s[k]).dragging.hovering is None,
    ensures
        forall|i: int|
            0 <= i < follow_plan(s, None, inputs).len() ==> !((#[trigger] follow_plan(
                s,
                None,
                inputs,
            )[i]) is Hover),
    decreases s.len(),
{
    if s.len() > 0 {
        let t = s.drop_first();
        assert forall|k: int| 0 <= k < t.len() implies (#[trigger] t[k]).dragging.hovering is None by {
            assert(t[k] == s[k + 1]);
        }
        lemma_unhovered_plan_quiet(t, inputs);
        let h = entry_steps(s[0], None, inputs);
        assert(h =~= seq![FollowAction::Follow { entity: s[0].entity }]);
        let p = follow_plan(s, None, inputs);
        assert(p == h + follow_plan(t, None, inputs));
        assert forall|i: int| 0 <= i < p.len() implies !((#[trigger] p[i]) is Hover) by {
            if i >= 1 {
                assert(p[i] == follow_plan(t, None, inputs)[i - 1]);
            }
        }
    }
}

/// Once the entities are handled, handling them again with the same receiver
/// under the pointer sends no hover event: an event goes out only when the
/// hovered receiver changes.
pub proof fn lemma_follow_settles(s: Seq<DraggingEntry>, hit: Option<u64>, inputs: InputFlags)
    ensures
        forall|i: int|
            0 <= i < follow_plan(follow_state(s, hit), hit, inputs).len() ==> !((
            #[trigger] follow_plan(follow_state(s, hit), hit, inputs)[i]) is Hover),
{
    let u = follow_state(s, hit);
    if s.len() > 0 {
        if hit is Some {
            assert(u[0].dragging.hovering == hit);
            assert(entry_steps(u[0], hit, inputs) =~= seq![FollowAction::Follow { entity: u[0].entity }]);
        } else {
            assert forall|k: int| 0 <= k < u.len() implies (#[trigger] u[k]).dragging.hovering is None by {}
            lemma_unhovered_plan_quiet(u, inputs);
        }
    }
}

/// The first receiver, in the order given, that lies under the pointer.
pub fn first_receiver_hit(receivers: &Vec<ReceiverProbe>) -> (r: Option<u64>)
    ensures
        r == first_hit(receivers@),
{
    let ghost s = receivers@;
    let n = receivers.len();
    let mut i: usize = 0;
    proof {
        assert(s.skip(0) =~= s);
    }
    while i < n
        invariant
            n == s.len(),
            s == receivers@,
            i <= n,
            first_hit(s.skip(i as int)) == first_hit(s),
        decreases n - i,
    {
        proof {
            assert(s.skip(i as int)[0] == s[i as int]);
            assert(s.skip(i as int).drop_first() =~= s.skip(i + 1));
        }
        if receivers[i].in_bounds {
            return Some(receivers[i].entity);
        }
        i = i + 1;
    }
    proof {
        assert(s.skip(n as int).len() == 0);
    }
    None
}

/// The hover event of one dragged entity that now lies over `hit`.
pub fn hover_step(e: &DraggingEntry, hit: Option<u64>, inputs: InputFlags) -> (r: Option<
    HoveredChange,
>)
    ensures
        r == hover_change(*e, hit, inputs),
{
    if e.dragging.hovering == hit {
        None
    } else {
        Some(
            HoveredChange {
                hovered: e.entity,
                receiver: hit,
                prevreceiver: e.dragging.hovering,
                inputs,
            },
        )
    }
}

/// Pushes the steps for one entity.
fn push_entry_steps(
    actions: &mut Vec<FollowAction>,
    e: &DraggingEntry,
    hit: Option<u64>,
    inputs: InputFlags,
)
    ensures
        final(actions)@ == old(actions)@ + entry_steps(*e, hit, inputs),
{
    actions.push(FollowAction::Follow { entity: e.entity });
    match hover_step(e, hit, inputs) {
        Some(ev) => {
            actions.push(FollowAction::Hover { event: ev });
        },
        None => {},
    }
    proof {
        assert(actions@ =~= old(actions)@ + entry_steps(*e, hit, inputs));
    }
}

/// What dragging does this frame: the steps taken and the new drag states.
///
/// While the pointer is in the window, dragged entities follow it in the order
/// given; each notes the first receiver under the pointer (or none) and sends
/// an event when that differs from the receiver it noted before. Once a
/// receiver lies under the pointer, the entities after the first are left for
/// a later frame. Outside the window nothing happens.
pub fn follow_pointer(
    inputs: InputFlags,
    pointer_in_window: bool,
    entries: &Vec<DraggingEntry>,
    receivers: &Vec<ReceiverProbe>,
) -> (r: (Vec<FollowAction>, Vec<DraggingEntry>))
    ensures
        r.0@ == (if pointer_in_window {
            follow_plan(entries@, first_hit(receivers@), inputs)
        } else {
            Seq::empty()
        }),
        r.1@ == (if pointer_in_window {
            follow_state(entries@, first_hit(receivers@))
        } else {
            entries@
        }),
{
    let ghost s = entries@;
    let n = entries.len();
    let mut actions: Vec<FollowAction> = Vec::new();
    let mut states: Vec<DraggingEntry> = Vec::new();
    if !pointer_in_window {
        for i in 0..n
            invariant
                n == s.len(),
                s == entries@,
                states@ =~= s.take(i as int),
        {
            states.push(entries[i]);
        }
        proof {
            assert(s.take(n as int) =~= s);
        }
        return (actions, states);
    }
    let hit = first_receiver_hit(receivers);
    if n > 0 {
        match hit {
            Some(_) => {
                push_entry_steps(&mut actions, &entries[0], hit, inputs);
                assert(actions@ =~= follow_plan(s, hit, inputs));
            },
            None => {
                let mut i: usize = 0;
                proof {
                    assert(s.skip(0) =~= s);
                }
                while i < n
                    invariant
                        n == s.len(),
                        s == entries@,
                        hit is None,
                        i <= n,
                        actions@ + follow_plan(s.skip(i as int), hit, inputs) == follow_plan(
                            s,
                            hit,
                            inputs,
                        ),
                    decreases n - i,
                {
                    let ghost before = actions@;
                    push_entry_steps(&mut actions, &entries[i], hit, inputs);
                    proof {
                        let rest = s.skip(i as int);
                        assert(rest[0] == s[i as int]);
                        assert(rest.drop_first() =~= s.skip(i + 1));
                        assert(actions@ + follow_plan(s.skip(i + 1), hit, inputs) =~= before
                            + follow_plan(rest, hit, inputs));
                    }
                    i = i + 1;
                }
                proof {
                    assert(s.skip(n as int).len() == 0);
                    assert(actions@ =~= actions@ + follow_plan(s.skip(n as int), hit, inputs));
                }
            },
        }
    }
    for i in 0..n
        invariant
            n == s.len(),
            s == entries@,
            states@ =~= follow_state(s, hit).take(i as int),
    {
        if hit.is_none() || i == 0 {
            states.push(DraggingEntry { entity: entries[i].entity, dragging: Dragging { hovering: hit } });
        } else {
            states.push(entries[i]);
        }
    }
    proof {
        assert(follow_state(s, hit).take(n as int) =~= follow_state(s, hit));
    }
    (actions, states)
}

} // verus!
