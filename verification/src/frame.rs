//! One frame of drag-and-drop as a whole: which entities wait to be dragged
//! and which are dragged before and after it.
use vstd::prelude::*;
use crate::flags::InputFlags;
use crate::start::{accepts, saturating_sum, start_for, start_outcome, DragCandidate, StartDrag};
use crate::awaiting::{await_plan, lemma_await_plan_steps, AwaitAction, AwaitingEntry};
use crate::components::Dragging;
use crate::events::Dragged;
use crate::hover::{first_hit, follow_state, handled, DraggingEntry, ReceiverProbe};
use crate::release::{
    drop_plan, drop_target, lemma_drop_plan_len, lemma_drops_are_released, lemma_released_are_dropped, release_for, released, DropEntry,
    Release,
};

verus! {

/// The entities whose drag begins in a list of waiting steps.
pub open spec fn begun(p: Seq<AwaitAction>) -> Set<u64> {
    Set::new(
        |x: u64|
            exists|i: int|
                0 <= i < p.len() && (#[trigger] p[i]) is Begin && p[i]->Begin_event.dragged == x,
    )
}

/// The entities that stop waiting without being dragged in a list of waiting steps.
pub open spec fn cancelled(p: Seq<AwaitAction>) -> Set<u64> {
    Set::new(|x: u64| exists|i: int| 0 <= i < p.len() && (#[trigger] p[i]) == AwaitAction::Cancel { entity: x })
}

/// The entities dropped in a list of drops.
pub open spec fn released_entities(r: Seq<Release>) -> Set<u64> {
    Set::new(|x: u64| exists|i: int| 0 <= i < r.len() && (#[trigger] r[i]).dropped_event.dropped == x)
}

/// The entity that starts waiting, if the start of a drag makes one wait.
pub open spec fn started_awaiting(o: StartDrag) -> Set<u64> {
    match o {
        StartDrag::Await { await_event, .. } => set![await_event.awaiting],
        _ => Set::empty(),
    }
}

/// The entity that starts being dragged at once, if any.
pub open spec fn started_dragging(o: StartDrag) -> Set<u64> {
    match o {
        StartDrag::Drag { drag_event, .. } => set![drag_event.dragged],
        _ => Set::empty(),
    }
}

/// The waiting entities after a frame.
pub open spec fn next_awaiting(a: Set<u64>, o: StartDrag, p: Seq<AwaitAction>) -> Set<u64> {
    a.difference(cancelled(p)).difference(begun(p)).union(started_awaiting(o))
}

/// The dragged entities after a frame.
pub open spec fn next_dragging(d: Set<u64>, o: StartDrag, p: Seq<AwaitAction>, r: Seq<Release>) -> Set<u64> {
    d.union(begun(p)).difference(released_entities(r)).union(started_dragging(o))
}

/// At most one entity waits to be dragged or is dragged.
pub open spec fn single_drag(a: Set<u64>, d: Set<u64>) -> bool {
    a.finite() && d.finite() && a.len() + d.len() <= 1
}

/// A frame from the waiting entities `a` and the dragged entities `d`, each
/// listed once in `waiting` and `dragged`: the start of a drag, the waiting
/// steps and the drops.
pub open spec fn frame(
    a: Set<u64>,
    d: Set<u64>,
    inputs: InputFlags,
    now: u64,
    pointer_in_window: bool,
    candidates: Seq<DragCandidate>,
    waiting: Seq<AwaitingEntry>,
    dragged: Seq<DropEntry>,
    receivers: Seq<ReceiverProbe>,
) -> (Set<u64>, Set<u64>) {
    let o = start_outcome(inputs, d.len() > 0, a.len() > 0, candidates, now);
    let p = await_plan(waiting, inputs, now);
    let r = drop_plan(dragged, drop_target(pointer_in_window, receivers), inputs);
    (next_awaiting(a, o, p), next_dragging(d, o, p, r))
}

/// The waiting steps over a run of calls, each with its inputs and time, for
/// an entity that is the only one waiting: each call lists the entity while it
/// still waits, and lists nothing once a call has cancelled its wait or begun
/// its drag.
pub open spec fn await_run(e: AwaitingEntry, calls: Seq<(InputFlags, u64)>) -> Seq<Seq<AwaitAction>>
    decreases calls.len(),
{
    if calls.len() == 0 {
        Seq::empty()
    } else {
        let p = await_plan(seq![e], calls[0].0, calls[0].1);
        if p.len() == 0 {
            seq![p] + await_run(e, calls.drop_first())
        } else {
            seq![p] + Seq::new((calls.len() - 1) as nat, |i: int| Seq::<AwaitAction>::empty())
        }
    }
}

/// Every call before call `k` kept the entity waiting: the inputs were
/// accepted and the time had not passed the end of the wait.
pub open spec fn still_waiting(e: AwaitingEntry, calls: Seq<(InputFlags, u64)>, k: int) -> bool {
    forall|j: int|
        0 <= j < k ==> accepts(e.draggable, (#[trigger] calls[j]).0) && calls[j].1 <= e.awaiting.ends
}

/// The step of one call on a lone waiting entity.
pub open spec fn lone_await_step(e: AwaitingEntry, inputs: InputFlags, now: u64) -> Seq<AwaitAction> {
    if !accepts(e.draggable, inputs) {
        seq![AwaitAction::Cancel { entity: e.entity }]
    } else if now > e.awaiting.ends {
        seq![
            AwaitAction::Begin {
                event: Dragged { dragged: e.entity, inputs },
                dragging: Dragging { hovering: None },
            },
        ]
    } else {
        Seq::empty()
    }
}

proof fn lemma_lone_await_plan(e: AwaitingEntry, inputs: InputFlags, now: u64)
    ensures
        await_plan(seq![e], inputs, now) == lone_await_step(e, inputs, now),
{
    reveal_with_fuel(await_plan, 2);
    assert(seq![e].drop_first().len() == 0);
    assert(seq![AwaitAction::Cancel { entity: e.entity }] + Seq::<AwaitAction>::empty() =~= seq![
        AwaitAction::Cancel { entity: e.entity },
    ]);
}

proof fn lemma_await_run(e: AwaitingEntry, calls: Seq<(InputFlags, u64)>)
    ensures
        await_run(e, calls).len() == calls.len(),
        forall|k: int|
            0 <= k < calls.len() ==> #[trigger] await_run(e, calls)[k] == (if still_waiting(
                e,
                calls,
                k,
            ) {
                lone_await_step(e, calls[k].0, calls[k].1)
            } else {
                Seq::empty()
            }),
    decreases calls.len(),
{
    if calls.len() > 0 {
        lemma_lone_await_plan(e, calls[0].0, calls[0].1);
        let r = await_run(e, calls);
        let t = calls.drop_first();
        let p = await_plan(seq![e], calls[0].0, calls[0].1);
        if p.len() == 0 {
            lemma_await_run(e, t);
            assert forall|k: int| 0 <= k < calls.len() implies #[trigger] r[k] == (if still_waiting(
                e,
                calls,
                k,
            ) {
                lone_await_step(e, calls[k].0, calls[k].1)
            } else {
                Seq::empty()
            }) by {
                if k > 0 {
                    assert(r[k] == await_run(e, t)[k - 1]);
                    assert(t[k - 1] == calls[k]);
                    if still_waiting(e, t, k - 1) {
                        assert forall|j: int| 0 <= j < k implies accepts(
                            e.draggable,
                            (#[trigger] calls[j]).0,
                        ) && calls[j].1 <= e.awaiting.ends by {
                            if j > 0 {
                                assert(calls[j] == t[j - 1]);
                            }
                        }
                    } else {
                        let j = choose|j: int|
                            !(0 <= j < k - 1 ==> accepts(e.draggable, (#[trigger] t[j]).0) && t[j].1
                                <= e.awaiting.ends);
                        assert(t[j] == calls[j + 1]);
                    }
                }
            }
        } else {
            assert forall|k: int| 0 <= k < calls.len() implies #[trigger] r[k] == (if still_waiting(
                e,
                calls,
                k,
            ) {
                lone_await_step(e, calls[k].0, calls[k].1)
            } else {
                Seq::empty()
            }) by {
                if k > 0 {
                    assert(!still_waiting(e, calls, k)) by {
                        assert(!(accepts(e.draggable, calls[0].0) && calls[0].1 <= e.awaiting.ends));
                    }
                }
            }
        }
    }
}

/// The minimum hold: an entity that starts waiting at time `t0` with hold `x`
/// is dragged by the first later call whose time passes `t0 + x` (the sum
/// saturating), by that call only, provided the inputs of every call up to
/// it are accepted; if a call before that finds the inputs rejected, that
/// call cancels the wait and the entity is never dragged by these calls.
pub proof fn lemma_minimum_hold(
    c: DragCandidate,
    start_inputs: InputFlags,
    t0: u64,
    x: u64,
    calls: Seq<(InputFlags, u64)>,
)
    requires
        c.draggable.minimum_held == Some(x),
    ensures
        ({
            let o = start_for(c, start_inputs, t0);
            let e = AwaitingEntry { entity: c.entity, draggable: c.draggable, awaiting: o->awaiting };
            let run = await_run(e, calls);
            &&& o is Await
            &&& o->await_event.awaiting == c.entity
            &&& e.awaiting.ends == saturating_sum(t0, x)
            &&& run.len() == calls.len()
            &&& forall|k: int|
                0 <= k < calls.len() ==> {
                    &&& (#[trigger] run[k] == seq![
                        AwaitAction::Begin {
                            event: Dragged { dragged: c.entity, inputs: calls[k].0 },
                            dragging: Dragging { hovering: None },
                        },
                    ]) <==> (still_waiting(e, calls, k) && accepts(c.draggable, calls[k].0)
                        && calls[k].1 > saturating_sum(t0, x))
                    &&& (run[k] == seq![AwaitAction::Cancel { entity: c.entity }]) <==> (
                    still_waiting(e, calls, k) && !accepts(c.draggable, calls[k].0))
                    &&& (run[k].len() == 0) <==> (!still_waiting(e, calls, k) || (accepts(
                        c.draggable,
                        calls[k].0,
                    ) && calls[k].1 <= saturating_sum(t0, x)))
                }
        }),
{
    let o = start_for(c, start_inputs, t0);
    let e = AwaitingEntry { entity: c.entity, draggable: c.draggable, awaiting: o->awaiting };
    lemma_await_run(e, calls);
    let run = await_run(e, calls);
    assert forall|k: int| 0 <= k < calls.len() implies {
        &&& (#[trigger] run[k] == seq![
            AwaitAction::Begin {
                event: Dragged { dragged: c.entity, inputs: calls[k].0 },
                dragging: Dragging { hovering: None },
            },
        ]) <==> (still_waiting(e, calls, k) && accepts(c.draggable, calls[k].0) && calls[k].1
            > saturating_sum(t0, x))
        &&& (run[k] == seq![AwaitAction::Cancel { entity: c.entity }]) <==> (still_waiting(
            e,
            calls,
            k,
        ) && !accepts(c.draggable, calls[k].0))
        &&& (run[k].len() == 0) <==> (!still_waiting(e, calls, k) || (accepts(
            c.draggable,
            calls[k].0,
        ) && calls[k].1 <= saturating_sum(t0, x)))
    } by {
        assert(run[k] == (if still_waiting(e, calls, k) {
            lone_await_step(e, calls[k].0, calls[k].1)
        } else {
            Seq::empty()
        }));
        if still_waiting(e, calls, k) && !accepts(c.draggable, calls[k].0) {
            assert(run[k][0] is Cancel);
        }
        if still_waiting(e, calls, k) && accepts(c.draggable, calls[k].0) && calls[k].1
            > saturating_sum(t0, x) {
            assert(run[k][0] is Begin);
        }
    }
}

/// Dragging runs before dropping in a frame, so dropping sees the drag states
/// that dragging left: `dropping[k]` is `following[k]` after dragging. Then an
/// entity that dragging handled and that is let go is dropped onto the
/// receiver it was last noted over, and its hover event names that receiver
/// as the one it leaves.
pub proof fn lemma_drop_onto_hovered_receiver(
    following: Seq<DraggingEntry>,
    dropping: Seq<DropEntry>,
    receivers: Seq<ReceiverProbe>,
    inputs: InputFlags,
)
    requires
        dropping.len() == following.len(),
        forall|k: int|
            0 <= k < dropping.len() ==> (#[trigger] dropping[k]).entity == following[k].entity
                && dropping[k].dragging == follow_state(following, first_hit(receivers))[k].dragging,
    ensures
        forall|k: int|
            0 <= k < dropping.len() && handled(first_hit(receivers), k) && released(
                #[trigger] dropping[k].draggable,
                inputs,
            ) ==> {
                let r = release_for(dropping[k], first_hit(receivers), inputs);
                &&& drop_plan(dropping, first_hit(receivers), inputs).contains(r)
                &&& r.dropped_event.dropped == following[k].entity
                &&& r.dropped_event.received == first_hit(receivers)
                &&& r.hover_event.prevreceiver == r.dropped_event.received
            },
{
    lemma_released_are_dropped(dropping, first_hit(receivers), inputs);
}

/// Only one entity is ever in the middle of a drag: if at most one entity
/// waits to be dragged or is dragged before a frame, the same holds after it.
pub proof fn lemma_frame_keeps_single_drag(
    a: Set<u64>,
    d: Set<u64>,
    inputs: InputFlags,
    now: u64,
    pointer_in_window: bool,
    candidates: Seq<DragCandidate>,
    waiting: Seq<AwaitingEntry>,
    dragged: Seq<DropEntry>,
    receivers: Seq<ReceiverProbe>,
)
    requires
        single_drag(a, d),
        waiting.len() == a.len(),
        forall|i: int| 0 <= i < waiting.len() ==> a.contains(#[trigger] waiting[i].entity),
        dragged.len() == d.len(),
        forall|i: int| 0 <= i < dragged.len() ==> d.contains(#[trigger] dragged[i].entity),
    ensures
        ({
            let (a2, d2) = frame(a, d, inputs, now, pointer_in_window, candidates, waiting, dragged, receivers);
            single_drag(a2, d2)
        }),
{
    let o = start_outcome(inputs, d.len() > 0, a.len() > 0, candidates, now);
    let p = await_plan(waiting, inputs, now);
    let r = drop_plan(dragged, drop_target(pointer_in_window, receivers), inputs);
    let a2 = next_awaiting(a, o, p);
    let d2 = next_dragging(d, o, p, r);
    if a.len() == 0 && d.len() == 0 {
        assert(a =~= Set::empty());
        assert(d =~= Set::empty());
        assert(waiting.len() == 0);
        assert(p.len() == 0);
        assert(begun(p) =~= Set::empty());
        assert(cancelled(p) =~= Set::empty());
        assert(dragged.len() == 0);
        assert(r.len() == 0);
        assert(released_entities(r) =~= Set::empty());
        match o {
            StartDrag::Idle => {
                assert(a2 =~= Set::empty());
                assert(d2 =~= Set::empty());
            },
            StartDrag::Await { await_event, .. } => {
                assert(a2 =~= set![await_event.awaiting]);
                assert(d2 =~= Set::empty());
            },
            StartDrag::Drag { drag_event, .. } => {
                assert(a2 =~= Set::empty());
                assert(d2 =~= set![drag_event.dragged]);
            },
        }
    } else if a.len() == 1 {
        assert(d =~= Set::empty());
        assert(o == StartDrag::Idle);
        let e = waiting[0];
        assert(a.contains(e.entity));
        assert(a =~= set![e.entity]) by {
            assert forall|x: u64| a.contains(x) implies x == e.entity by {
                if x != e.entity {
                    assert(set![x, e.entity].subset_of(a));
                    vstd::set_lib::lemma_len_subset(set![x, e.entity], a);
                }
            }
        }
        assert(dragged.len() == 0);
        assert(r.len() == 0);
        assert(released_entities(r) =~= Set::empty());
        assert(waiting.drop_first().len() == 0);
        reveal_with_fuel(await_plan, 2);
        if p.len() == 0 {
            assert(begun(p) =~= Set::empty());
            assert(d2 =~= Set::empty());
            assert(a2.subset_of(a));
            vstd::set_lib::lemma_len_subset(a2, a);
        } else {
            assert(p.len() == 1);
            match p[0] {
                AwaitAction::Cancel { entity } => {
                    assert(entity == e.entity);
                    assert(begun(p) =~= Set::empty());
                    assert(cancelled(p) =~= a);
                    assert(a2 =~= Set::empty());
                    assert(d2 =~= Set::empty());
                },
                AwaitAction::Begin { event, dragging } => {
                    assert(event.dragged == e.entity);
                    assert(begun(p) =~= a) by {
                        assert(begun(p).contains(e.entity));
                    }
                    assert(a2 =~= Set::empty());
                    assert(d2 =~= a);
                },
            }
        }
    } else {
        assert(d.len() == 1);
        assert(a =~= Set::empty());
        assert(o == StartDrag::Idle);
        assert(waiting.len() == 0);
        assert(p.len() == 0);
        assert(begun(p) =~= Set::empty());
        assert(a2 =~= Set::empty());
        assert(d2.subset_of(d));
        vstd::set_lib::lemma_len_subset(d2, d);
    }
}

/// What one frame reads: the pressed inputs, the time, whether the pointer is
/// in the window, the draggable candidates, the waiting entities, the dragged
/// entities and the receivers.
pub struct FrameInput {
    pub inputs: InputFlags,
    pub now: u64,
    pub pointer_in_window: bool,
    pub candidates: Seq<DragCandidate>,
    pub waiting: Seq<AwaitingEntry>,
    pub dragged: Seq<DropEntry>,
    pub receivers: Seq<ReceiverProbe>,
}

/// The frame lists each waiting entity of `a` and each dragged entity of `d` once.
pub open spec fn lists_world(a: Set<u64>, d: Set<u64>, f: FrameInput) -> bool {
    &&& f.waiting.len() == a.len()
    &&& forall|i: int| 0 <= i < f.waiting.len() ==> a.contains(#[trigger] f.waiting[i].entity)
    &&& f.dragged.len() == d.len()
    &&& forall|i: int| 0 <= i < f.dragged.len() ==> d.contains(#[trigger] f.dragged[i].entity)
}

/// The start of a drag in frame `f`.
pub open spec fn frame_start(a: Set<u64>, d: Set<u64>, f: FrameInput) -> StartDrag {
    start_outcome(f.inputs, d.len() > 0, a.len() > 0, f.candidates, f.now)
}

/// The waiting steps in frame `f`.
pub open spec fn frame_awaits(f: FrameInput) -> Seq<AwaitAction> {
    await_plan(f.waiting, f.inputs, f.now)
}

/// The drops in frame `f`.
pub open spec fn frame_drops(f: FrameInput) -> Seq<Release> {
    drop_plan(f.dragged, drop_target(f.pointer_in_window, f.receivers), f.inputs)
}

/// The entities for which frame `f` sends a drag event.
pub open spec fn frame_dragged(a: Set<u64>, d: Set<u64>, f: FrameInput) -> Set<u64> {
    started_dragging(frame_start(a, d, f)).union(begun(frame_awaits(f)))
}

/// The entities for which frame `f` sends a drop event.
pub open spec fn frame_dropped(f: FrameInput) -> Set<u64> {
    released_entities(frame_drops(f))
}

/// The waiting and the dragged entities after frame `f`.
pub open spec fn frame_after(a: Set<u64>, d: Set<u64>, f: FrameInput) -> (Set<u64>, Set<u64>) {
    frame(a, d, f.inputs, f.now, f.pointer_in_window, f.candidates, f.waiting, f.dragged, f.receivers)
}

/// The waiting and the dragged entities before frame `k` of a run that starts
/// with no entity waiting or dragged.
pub open spec fn run_state(fs: Seq<FrameInput>, k: nat) -> (Set<u64>, Set<u64>)
    decreases k,
{
    if k == 0 {
        (Set::empty(), Set::empty())
    } else {
        let (a, d) = run_state(fs, (k - 1) as nat);
        frame_after(a, d, fs[k - 1])
    }
}

/// The drag events sent in frame `k` of a run.
pub open spec fn run_dragged(fs: Seq<FrameInput>, k: nat) -> Set<u64> {
    frame_dragged(run_state(fs, k).0, run_state(fs, k).1, fs[k as int])
}

/// The drop events sent in frame `k` of a run.
pub open spec fn run_dropped(fs: Seq<FrameInput>, k: nat) -> Set<u64> {
    frame_dropped(fs[k as int])
}

/// Whether, before frame `k`, the last drag or drop event for entity `e` was a
/// drag event (false when there was none).
pub open spec fn last_was_dragged(fs: Seq<FrameInput>, e: u64, k: nat) -> bool
    decreases k,
{
    if k == 0 {
        false
    } else if run_dragged(fs, (k - 1) as nat).contains(e) {
        true
    } else if run_dropped(fs, (k - 1) as nat).contains(e) {
        false
    } else {
        last_was_dragged(fs, e, (k - 1) as nat)
    }
}

/// In one frame, at most one drag event and at most one drop event are sent;
/// a drag event goes only to an entity not dragged before it and dragged after it, a drop event only to an entity dragged before it and not
/// after it, and every other entity keeps whether it is dragged.
pub proof fn lemma_frame_events(a: Set<u64>, d: Set<u64>, f: FrameInput)
    requires
        single_drag(a, d),
        lists_world(a, d, f),
    ensures
        single_drag(frame_after(a, d, f).0, frame_after(a, d, f).1),
        frame_drops(f).len() <= 1,
        frame_awaits(f).len() <= 1,
        frame_start(a, d, f) is Drag ==> frame_awaits(f).len() == 0,
        forall|e: u64|
            #[trigger] frame_dragged(a, d, f).contains(e) ==> !d.contains(e) && frame_after(
                a,
                d,
                f,
            ).1.contains(e) && !frame_dropped(f).contains(e),
        forall|e: u64|
            #[trigger] frame_dropped(f).contains(e) ==> d.contains(e) && !frame_after(a, d, f).1.contains(
                e,
            ),
        forall|e: u64|
            !frame_dragged(a, d, f).contains(e) && !frame_dropped(f).contains(e) ==> (
            #[trigger] frame_after(a, d, f).1.contains(e) == d.contains(e)),
{
    lemma_frame_keeps_single_drag(
        a,
        d,
        f.inputs,
        f.now,
        f.pointer_in_window,
        f.candidates,
        f.waiting,
        f.dragged,
        f.receivers,
    );
    let o = frame_start(a, d, f);
    let p = frame_awaits(f);
    let r = frame_drops(f);
    lemma_drops_are_released(f.dragged, drop_target(f.pointer_in_window, f.receivers), f.inputs);
    lemma_drop_plan_len(f.dragged, drop_target(f.pointer_in_window, f.receivers), f.inputs);
    // every dropped entity is a dragged one
    assert forall|e: u64| #[trigger] frame_dropped(f).contains(e) implies d.contains(e) by {
        let i = choose|i: int| 0 <= i < r.len() && (#[trigger] r[i]).dropped_event.dropped == e;
        let k = choose|k: int|
            0 <= k < f.dragged.len() && released(f.dragged[k].draggable, f.inputs) && #[trigger] r[i]
                == release_for(#[trigger] f.dragged[k], drop_target(f.pointer_in_window, f.receivers), f.inputs);
    }
    // every begun entity is a waiting one
    lemma_await_plan_steps(f.waiting, f.inputs, f.now);
    assert forall|e: u64| #[trigger] begun(p).contains(e) implies a.contains(e) by {
        let i = choose|i: int| 0 <= i < p.len() && (#[trigger] p[i]) is Begin && p[i]->Begin_event.dragged == e;
        assert(p[i] is Begin);
    }
    if !(o is Idle) {
        assert(a.len() == 0 && d.len() == 0);
    }
    if a.len() > 0 {
        assert(d.len() == 0);
    }
    if d.len() == 0 {
        assert(d =~= Set::empty());
    }
    if a.len() == 0 {
        assert(a =~= Set::empty());
    }
}

/// Over a run of frames that starts with no entity waiting or dragged, drag
/// and drop events alternate for each entity, starting with a drag event: a
/// drop event goes to an entity whose last event was a drag event, a drag
/// event to one whose last event was not, and no frame sends both to one entity.
pub proof fn lemma_drag_drop_alternate(fs: Seq<FrameInput>)
    requires
        forall|k: nat|
            k < fs.len() ==> lists_world(#[trigger] run_state(fs, k).0, run_state(fs, k).1, fs[k as int]),
    ensures
        forall|e: u64, k: nat|
            #![trigger run_dropped(fs, k).contains(e)]
            #![trigger run_dragged(fs, k).contains(e)]
            k < fs.len() ==> {
                &&& (run_dropped(fs, k).contains(e) ==> last_was_dragged(fs, e, k))
                &&& (run_dragged(fs, k).contains(e) ==> !last_was_dragged(fs, e, k))
                &&& !(run_dragged(fs, k).contains(e) && run_dropped(fs, k).contains(e))
            },
{
    assert forall|e: u64, k: nat|
        #![trigger run_dropped(fs, k).contains(e)]
        #![trigger run_dragged(fs, k).contains(e)]
        k < fs.len() implies {
        &&& (run_dropped(fs, k).contains(e) ==> last_was_dragged(fs, e, k))
        &&& (run_dragged(fs, k).contains(e) ==> !last_was_dragged(fs, e, k))
        &&& !(run_dragged(fs, k).contains(e) && run_dropped(fs, k).contains(e))
    } by {
        lemma_run_tracks_last_event(fs, k);
        let (a, d) = run_state(fs, k);
        lemma_frame_events(a, d, fs[k as int]);
        assert(run_dragged(fs, k) == frame_dragged(a, d, fs[k as int]));
    }
}

/// Before each frame of the run, at most one entity waits or is dragged, and
/// an entity is dragged exactly when its last event was a drag event.
proof fn lemma_run_tracks_last_event(fs: Seq<FrameInput>, k: nat)
    requires
        k <= fs.len(),
        forall|j: nat|
            j < fs.len() ==> lists_world(#[trigger] run_state(fs, j).0, run_state(fs, j).1, fs[j as int]),
    ensures
        single_drag(run_state(fs, k).0, run_state(fs, k).1),
        forall|e: u64| #[trigger] run_state(fs, k).1.contains(e) == last_was_dragged(fs, e, k),
    decreases k,
{
    if k == 0 {
        assert(Set::<u64>::empty().len() == 0);
    } else {
        let j = (k - 1) as nat;
        lemma_run_tracks_last_event(fs, j);
        let (a, d) = run_state(fs, j);
        assert(lists_world(run_state(fs, j).0, run_state(fs, j).1, fs[j as int]));
        lemma_frame_events(a, d, fs[j as int]);
        assert(run_state(fs, k) == frame_after(a, d, fs[j as int]));
        assert forall|e: u64| #[trigger] run_state(fs, k).1.contains(e) == last_was_dragged(fs, e, k) by {
            assert(run_dragged(fs, j) == frame_dragged(a, d, fs[j as int]));
            if frame_dragged(a, d, fs[j as int]).contains(e) {
            } else if frame_dropped(fs[j as int]).contains(e) {
            } else {
                assert(d.contains(e) == last_was_dragged(fs, e, j));
            }
        }
    }
}

} // verus!
