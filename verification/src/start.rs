//! Which entity starts being dragged when a click lands on draggable entities.
use vstd::prelude::*;
use crate::flags::{bits_contain, bits_intersect, InputFlags, CLICKS};
use crate::components::{AwaitingDrag, Draggable, Dragging};
use crate::events::{DragAwait, Dragged};

verus! {

/// A draggable entity as the pointer finds it this frame.
#[derive(Clone, Copy, Debug, PartialEq, Eq, Structural)]
pub struct DragCandidate {
    /// The entity.
    pub entity: u64,
    /// Whether the pointer lies within the entity's bounds.
    pub in_bounds: bool,
    /// The entity's depth as a number that orders as the depths do: a larger
    /// number lies nearer to the viewer.
    pub z_order: i64,
    /// How the entity may be dragged.
    pub draggable: Draggable,
}

/// What the start of a drag does this frame.
#[derive(Clone, Copy, Debug, PartialEq, Eq, Structural)]
pub enum StartDrag {
    /// Nothing starts.
    Idle,
    /// The entity must wait: the event is sent and the entity is marked as
    /// waiting until the given time.
    Await { await_event: DragAwait, awaiting: AwaitingDrag },
    /// The entity is dragged at once: the event is sent and the entity is
    /// marked as dragged, over no receiver.
    Drag { drag_event: Dragged, dragging: Dragging },
}

/// Whether the pressed inputs let `d` be dragged: all required inputs are
/// down and none of the disallowed ones.
pub open spec fn accepts(d: Draggable, inputs: InputFlags) -> bool {
    bits_contain(inputs.bits, d.required.bits) && !bits_intersect(inputs.bits, d.disallowed.bits)
}

/// Whether a candidate can be picked: it is under the pointer and accepts the inputs.
pub open spec fn eligible(c: DragCandidate, inputs: InputFlags) -> bool {
    c.in_bounds && accepts(c.draggable, inputs)
}

/// A drag can start only while some mouse button is down and no entity is
/// dragged or waiting to be dragged.
pub open spec fn may_start(inputs: InputFlags, any_dragging: bool, any_awaiting: bool) -> bool {
    bits_intersect(inputs.bits, CLICKS) && !any_dragging && !any_awaiting
}

/// Whether some candidate can be picked.
pub open spec fn any_eligible(s: Seq<DragCandidate>, inputs: InputFlags) -> bool {
    exists|i: int| 0 <= i < s.len() && eligible(#[trigger] s[i], inputs)
}

/// Candidate `i` is the one picked: it is eligible, no eligible candidate lies
/// nearer, and every eligible candidate before it lies farther.
pub open spec fn is_top_candidate(s: Seq<DragCandidate>, inputs: InputFlags, i: int) -> bool {
    &&& 0 <= i < s.len()
    &&& eligible(s[i], inputs)
    &&& forall|j: int| 0 <= j < s.len() && eligible(#[trigger] s[j], inputs) ==> s[j].z_order <= s[i].z_order
    &&& forall|j: int| 0 <= j < i && eligible(#[trigger] s[j], inputs) ==> s[j].z_order < s[i].z_order
}

/// `a + b`, or the largest time where the sum does not fit.
pub open spec fn saturating_sum(a: u64, b: u64) -> u64 {
    if a + b > u64::MAX {
        u64::MAX
    } else {
        (a + b) as u64
    }
}

/// What starting to drag candidate `c` at time `now` does.
pub open spec fn start_for(c: DragCandidate, inputs: InputFlags, now: u64) -> StartDrag {
    match c.draggable.minimum_held {
        Some(held) => StartDrag::Await {
            await_event: DragAwait { awaiting: c.entity, inputs },
            awaiting: AwaitingDrag { ends: saturating_sum(now, held) },
        },
        None => StartDrag::Drag {
            drag_event: Dragged { dragged: c.entity, inputs },
            dragging: Dragging { hovering: None },
        },
    }
}

/// What starting a drag does: nothing, unless a drag may start and some
/// candidate can be picked; then what starting the picked candidate does.
pub open spec fn start_outcome(
    inputs: InputFlags,
    any_dragging: bool,
    any_awaiting: bool,
    s: Seq<DragCandidate>,
    now: u64,
) -> StartDrag {
    if may_start(inputs, any_dragging, any_awaiting) && any_eligible(s, inputs) {
        start_for(s[choose|i: int| is_top_candidate(s, inputs, i)], inputs, now)
    } else {
        StartDrag::Idle
    }
}

/// A drag may start with any of the three mouse buttons down (bits 1, 2 and 4),
/// and only with one of them down, and only while nothing is dragged or waiting.
pub proof fn lemma_any_button_may_start(inputs: InputFlags, any_dragging: bool, any_awaiting: bool)
    ensures
        may_start(inputs, any_dragging, any_awaiting) <==> (inputs.bits & 7u8 != 0 && !any_dragging
            && !any_awaiting),
{
}

/// The inputs let a draggable be dragged exactly when every required bit is
/// down and no disallowed bit is down, whatever other bits (modifier keys
/// included) are down too.
pub proof fn lemma_accepts_inputs_law(d: Draggable, inputs: InputFlags)
    ensures
        inputs.bits & d.disallowed.bits != 0 ==> !accepts(d, inputs),
        inputs.bits & d.required.bits == d.required.bits && inputs.bits & d.disallowed.bits == 0
            ==> accepts(d, inputs),
        accepts(d, inputs) ==> inputs.bits & d.required.bits == d.required.bits,
{
}

/// Pressing more inputs that are not disallowed never stops a draggable from
/// accepting them.
pub proof fn lemma_accepts_more_inputs(d: Draggable, inputs: InputFlags, more: InputFlags)
    requires
        accepts(d, inputs),
        more.bits & inputs.bits == inputs.bits,
        more.bits & d.disallowed.bits == 0,
    ensures
        accepts(d, more),
{
    let (m, i, r) = (more.bits, inputs.bits, d.required.bits);
    assert(m & i == i && i & r == r ==> m & r == r) by (bit_vector);
}

/// With any mouse button down and nothing dragged or waiting, a drag starts
/// as soon as one candidate lies under the pointer, has every required input
/// down and no disallowed input down.
pub proof fn lemma_click_on_candidate_starts(inputs: InputFlags, s: Seq<DragCandidate>, now: u64, i: int)
    requires
        inputs.bits & 7u8 != 0,
        0 <= i < s.len(),
        s[i].in_bounds,
        inputs.bits & s[i].draggable.required.bits == s[i].draggable.required.bits,
        inputs.bits & s[i].draggable.disallowed.bits == 0,
    ensures
        !(start_outcome(inputs, false, false, s, now) is Idle),
{
    assert(eligible(s[i], inputs));
    lemma_top_candidate_exists(s, inputs);
}

/// At most one candidate is the one picked.
pub proof fn lemma_top_candidate_unique(s: Seq<DragCandidate>, inputs: InputFlags, i: int, j: int)
    requires
        is_top_candidate(s, inputs, i),
        is_top_candidate(s, inputs, j),
    ensures
        i == j,
{
    if i < j {
        assert(eligible(s[i], inputs));
    } else if j < i {
        assert(eligible(s[j], inputs));
    }
}

/// Some candidate is the one picked exactly when some candidate can be picked.
pub proof fn lemma_top_candidate_exists(s: Seq<DragCandidate>, inputs: InputFlags)
    requires
        any_eligible(s, inputs),
    ensures
        exists|i: int| is_top_candidate(s, inputs, i),
    decreases s.len(),
{
    let n = s.len() - 1;
    let p = s.drop_last();
    if any_eligible(p, inputs) {
        lemma_top_candidate_exists(p, inputs);
        let i = choose|i: int| is_top_candidate(p, inputs, i);
        assert(p[i] == s[i]);
        if eligible(s[n], inputs) && s[n].z_order > s[i].z_order {
            assert forall|j: int| 0 <= j < s.len() && eligible(#[trigger] s[j], inputs) implies s[j].z_order <= s[n].z_order by {
                if j < n {
                    assert(p[j] == s[j]);
                }
            }
            assert forall|j: int| 0 <= j < n && eligible(#[trigger] s[j], inputs) implies s[j].z_order < s[n].z_order by {
                assert(p[j] == s[j]);
            }
            assert(is_top_candidate(s, inputs, n));
        } else {
            assert forall|j: int| 0 <= j < s.len() && eligible(#[trigger] s[j], inputs) implies s[j].z_order <= s[i].z_order by {
                if j < n {
                    assert(p[j] == s[j]);
                }
            }
            assert forall|j: int| 0 <= j < i && eligible(#[trigger] s[j], inputs) implies s[j].z_order < s[i].z_order by {
                assert(p[j] == s[j]);
            }
            assert(is_top_candidate(s, inputs, i));
        }
    } else {
        let k = choose|k: int| 0 <= k < s.len() && eligible(#[trigger] s[k], inputs);
        if k < n {
            assert(p[k] == s[k]);
            assert(false);
        }
        assert forall|j: int| 0 <= j < n implies !eligible(#[trigger] s[j], inputs) by {
            assert(p[j] == s[j]);
        }
        assert(is_top_candidate(s, inputs, n));
    }
}

/// Whether the pressed inputs let `d` be dragged.
pub fn accepts_inputs(d: &Draggable, inputs: InputFlags) -> (r: bool)
    ensures
        r == accepts(*d, inputs),
{
    inputs.contains(d.required) && !inputs.intersects(d.disallowed)
}

/// Whether a drag may start: some mouse button is down and no entity is
/// dragged or waiting to be dragged.
pub fn may_start_drag(inputs: InputFlags, any_dragging: bool, any_awaiting: bool) -> (r: bool)
    ensures
        r == may_start(inputs, any_dragging, any_awaiting),
{
    inputs.intersects(InputFlags::clicks()) && !any_dragging && !any_awaiting
}

/// The candidate to drag: among those under the pointer that accept the
/// inputs, the nearest one, and the first of those when several are equally near.
pub fn top_candidate(inputs: InputFlags, candidates: &Vec<DragCandidate>) -> (r: Option<usize>)
    ensures
        r is None <==> !any_eligible(candidates@, inputs),
        r matches Some(i) ==> is_top_candidate(candidates@, inputs, i as int),
{
    let ghost s = candidates@;
    let mut best: Option<usize> = None;
    let n = candidates.len();
    for i in 0..n
        invariant
            n == s.len(),
            s == candidates@,
            best is None ==> forall|j: int| 0 <= j < i ==> !eligible(#[trigger] s[j], inputs),
            best matches Some(b) ==> {
                &&& b < i
                &&& eligible(s[b as int], inputs)
                &&& forall|j: int| 0 <= j < i && eligible(#[trigger] s[j], inputs) ==> s[j].z_order <= s[b as int].z_order
                &&& forall|j: int| 0 <= j < b && eligible(#[trigger] s[j], inputs) ==> s[j].z_order < s[b as int].z_order
            },
    {
        let c = &candidates[i];
        if c.in_bounds && accepts_inputs(&c.draggable, inputs) {
            match best {
                None => {
                    best = Some(i);
                },
                Some(b) => {
                    if c.z_order > candidates[b].z_order {
                        best = Some(i);
                    }
                },
            }
        }
    }
    proof {
        if best is None {
            assert forall|j: int| 0 <= j < s.len() implies !eligible(#[trigger] s[j], inputs) by {}
        } else {
            assert(eligible(s[best->0 as int], inputs));
        }
    }
    best
}

/// What a press of the pointer starts this frame, at time `now`.
///
/// Nothing starts unless a mouse button is down, nothing is dragged or waiting
/// already, and some candidate under the pointer accepts the inputs. Then the
/// nearest such candidate (the first of the nearest) is picked: it waits until
/// `now` plus its minimum hold when it has one, else it is dragged at once.
pub fn start_drag(
    inputs: InputFlags,
    any_dragging: bool,
    any_awaiting: bool,
    candidates: &Vec<DragCandidate>,
    now: u64,
) -> (r: StartDrag)
    ensures
        r == start_outcome(inputs, any_dragging, any_awaiting, candidates@, now),
        (r is Idle) <==> !(may_start(inputs, any_dragging, any_awaiting) && any_eligible(
            candidates@,
            inputs,
        )),
        forall|i: int|
            may_start(inputs, any_dragging, any_awaiting) && is_top_candidate(
                candidates@,
                inputs,
                i,
            ) ==> r == start_for(#[trigger] candidates@[i], inputs, now),
        may_start(inputs, any_dragging, any_awaiting) && any_eligible(candidates@, inputs) ==> exists|
            i: int,
        |
            is_top_candidate(candidates@, inputs, i) && r == start_for(
                #[trigger] candidates@[i],
                inputs,
                now,
            ),
{
    if !may_start_drag(inputs, any_dragging, any_awaiting) {
        return StartDrag::Idle;
    }
    proof {
        if any_eligible(candidates@, inputs) {
            lemma_top_candidate_exists(candidates@, inputs);
        }
    }
    match top_candidate(inputs, candidates) {
        None => StartDrag::Idle,
        Some(i) => {
            let c = &candidates[i];
            proof {
                assert forall|k: int|
                    is_top_candidate(candidates@, inputs, k) implies candidates@[k] == candidates@[i as int] by {
                    lemma_top_candidate_unique(candidates@, inputs, k, i as int);
                }
                let k = choose|k: int| is_top_candidate(candidates@, inputs, k);
                assert(is_top_candidate(candidates@, inputs, k));
            }
            match c.draggable.minimum_held {
                Some(held) => StartDrag::Await {
                    await_event: DragAwait { awaiting: c.entity, inputs },
                    awaiting: AwaitingDrag { ends: now.saturating_add(held) },
                },
                None => StartDrag::Drag {
                    drag_event: Dragged { dragged: c.entity, inputs },
                    dragging: Dragging { hovering: None },
                },
            }
        },
    }
}

} // verus!
