//! When an entity that waits to be dragged starts being dragged, or stops waiting.
use vstd::prelude::*;
use crate::flags::InputFlags;
use crate::components::{AwaitingDrag, Draggable, Dragging};
use crate::events::Dragged;
use crate::start::{accepts, accepts_inputs};

verus! {

/// An entity that waits to be dragged.
#[derive(Clone, Copy, Debug, PartialEq, Eq, Structural)]
pub struct AwaitingEntry {
    /// The entity.
    pub entity: u64,
    /// How the entity may be dragged.
    pub draggable: Draggable,
    /// Until when it waits.
    pub awaiting: AwaitingDrag,
}

/// A step taken on a waiting entity.
#[derive(Clone, Copy, Debug, PartialEq, Eq, Structural)]
pub enum AwaitAction {
    /// The inputs no longer allow the drag: the entity stops waiting.
    Cancel { entity: u64 },
    /// The wait is over: the event is sent, the entity is marked as dragged,
    /// over no receiver, and stops waiting.
    Begin { event: Dragged, dragging: Dragging },
}

/// The steps taken on the waiting entities, in the order given: each entity
/// whose inputs no longer hold stops waiting, until the first entity whose
/// inputs do hold; that one starts being dragged if its wait ended before
/// `now`, and no entity after it is looked at.
pub open spec fn await_plan(s: Seq<AwaitingEntry>, inputs: InputFlags, now: u64) -> Seq<AwaitAction>
    decreases s.len(),
{
    if s.len() == 0 {
        Seq::empty()
    } else if accepts(s[0].draggable, inputs) {
        if now > s[0].awaiting.ends {
            seq![
                AwaitAction::Begin {
                    event: Dragged { dragged: s[0].entity, inputs },
                    dragging: Dragging { hovering: None },
                },
            ]
        } else {
            Seq::empty()
        }
    } else {
        seq![AwaitAction::Cancel { entity: s[0].entity }] + await_plan(s.drop_first(), inputs, now)
    }
}

/// Every waiting entity up to index `j` rejects the inputs.
pub open spec fn rejects_through(s: Seq<AwaitingEntry>, inputs: InputFlags, j: int) -> bool {
    forall|m: int| 0 <= m <= j ==> !accepts(#[trigger] s[m].draggable, inputs)
}

/// The steps line up with the waiting entities: step `i` is about entity `i`.
/// It cancels the wait of an entity that rejects the inputs, or, only as the
/// last step, begins the drag of an entity that accepts them and whose wait
/// ended before `now`. Every entity before the first that accepts the inputs
/// stops waiting.
pub proof fn lemma_await_plan_steps(s: Seq<AwaitingEntry>, inputs: InputFlags, now: u64)
    ensures
        await_plan(s, inputs, now).len() <= s.len(),
        forall|i: int|
            0 <= i < await_plan(s, inputs, now).len() ==> {
                ||| (#[trigger] await_plan(s, inputs, now)[i] == AwaitAction::Cancel {
                    entity: s[i].entity,
                } && !accepts(s[i].draggable, inputs))
                ||| (await_plan(s, inputs, now)[i] == AwaitAction::Begin {
                    event: Dragged { dragged: s[i].entity, inputs },
                    dragging: Dragging { hovering: None },
                } && accepts(s[i].draggable, inputs) && now > s[i].awaiting.ends && i
                    == await_plan(s, inputs, now).len() - 1)
            },
        forall|j: int|
            0 <= j < s.len() && #[trigger] rejects_through(s, inputs, j) ==> j < await_plan(
                s,
                inputs,
                now,
            ).len(),
    decreases s.len(),
{
    if s.len() > 0 && !accepts(s[0].draggable, inputs) {
        let t = s.drop_first();
        lemma_await_plan_steps(t, inputs, now);
        let p = await_plan(s, inputs, now);
        let q = await_plan(t, inputs, now);
        assert(p == seq![AwaitAction::Cancel { entity: s[0].entity }] + q);
        assert forall|i: int| 1 <= i < p.len() implies p[i] == q[i - 1] && s[i] == t[i - 1] by {}
        assert forall|j: int| 0 <= j < s.len() && #[trigger] rejects_through(s, inputs, j) implies j
            < p.len() by {
            if j > 0 {
                assert forall|m: int| 0 <= m <= j - 1 implies !accepts(#[trigger] t[m].draggable, inputs) by {
                    assert(t[m] == s[m + 1]);
                }
                assert(rejects_through(t, inputs, j - 1));
            }
        }
    } else if s.len() > 0 {
        assert forall|j: int| 0 <= j < s.len() && #[trigger] rejects_through(s, inputs, j) implies j
            < await_plan(s, inputs, now).len() by {
            assert(!accepts(s[0].draggable, inputs));
        }
    }
}

/// A waiting entity that comes first and has a disallowed input down, or a
/// required input up, has its wait cancelled, whatever the time.
pub proof fn lemma_refused_wait_cancelled(s: Seq<AwaitingEntry>, inputs: InputFlags, now: u64)
    requires
        s.len() > 0,
        inputs.bits & s[0].draggable.disallowed.bits != 0 || inputs.bits & s[0].draggable.required.bits
            != s[0].draggable.required.bits,
    ensures
        await_plan(s, inputs, now).len() > 0,
        await_plan(s, inputs, now)[0] == (AwaitAction::Cancel { entity: s[0].entity }),
{
}

/// The steps taken this frame, at time `now`, on the entities that wait to be
/// dragged, in the order given.
pub fn await_drag(inputs: InputFlags, entries: &Vec<AwaitingEntry>, now: u64) -> (r: Vec<
    AwaitAction,
>)
    ensures
        r@ == await_plan(entries@, inputs, now),
{
    let ghost s = entries@;
    let mut actions: Vec<AwaitAction> = Vec::new();
    let n = entries.len();
    let mut i: usize = 0;
    proof {
        assert(s.skip(0) =~= s);
        assert(actions@ + await_plan(s, inputs, now) =~= await_plan(s, inputs, now));
    }
    while i < n
        invariant
            n == s.len(),
            s == entries@,
            i <= n,
            actions@ + await_plan(s.skip(i as int), inputs, now) == await_plan(s, inputs, now),
        decreases n - i,
    {
        let e = &entries[i];
        if accepts_inputs(&e.draggable, inputs) {
            if now > e.awaiting.ends {
                actions.push(
                    AwaitAction::Begin {
                        event: Dragged { dragged: e.entity, inputs },
                        dragging: Dragging { hovering: None },
                    },
                );
            }
            proof {
                assert(s.skip(i as int)[0] == e);
            }
            assert(actions@ == await_plan(s, inputs, now));
            return actions;
        }
        actions.push(AwaitAction::Cancel { entity: e.entity });
        proof {
            let rest = s.skip(i as int);
            assert(rest[0] == *e);
            assert(rest.drop_first() =~= s.skip(i + 1));
            assert(actions@ + await_plan(s.skip(i + 1), inputs, now) =~= actions@.drop_last() + await_plan(rest, inputs, now));
        }
        i = i + 1;
    }
    proof {
        assert(s.skip(n as int).len() == 0);
        assert(actions@ + Seq::<AwaitAction>::empty() =~= actions@);
    }
    actions
}

} // verus!
