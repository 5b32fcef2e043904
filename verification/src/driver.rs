//! The per-tick driver.
//!
//! The host scheduler runs one tick as three phases. [`begin_tick`] releases
//! the reentrancy lock, takes every world-changed listener to be fired
//! exactly once, evaluates the resource listeners, and marks the store
//! handle as bound. The host then fires the returned callback handles and
//! runs its one recomposition pass — node callbacks read the store and queue
//! mutations through the context. [`finish_tick`] advances the store's
//! change counter, applies the queued deferred updates and then the
//! structural commands in enqueue order, and re-acquires the lock, which
//! stays held until the next tick begins.
//!
//! Results of out-of-band asynchronous work never touch the store directly:
//! the host drains its channel into the update queue, so they too are
//! applied here, after the pass. Advancing the counter *before* applying
//! the queues is what gives writes their one-tick latency: a write applied
//! in tick `T` carries a stamp newer than every watermark seeded during
//! `T`, and so wakes subscribers in tick `T + 1`, never its own tick.

use crate::context::{ContextView, RuntimeContext};
use crate::listener::{due_notifications, ListenerView};
use crate::ops::{apply_ops, lemma_apply_all_keeps_counters, lemma_apply_all_snoc, StoreOp};
use crate::store::{ResData, Store, StoreView};
use crate::ticks::tick_inc;
use vstd::prelude::*;

verus! {

/// What the opening of a tick decided: the callbacks the host must fire
/// before it runs the recomposition pass.
pub struct TickStart {
    /// The world-changed callbacks, each (key, handle) entry exactly once,
    /// cleared from the registry as they are taken.
    pub world_listeners: Vec<(u64, u64)>,
    /// The woken resource subscribers, in listener-registration and then
    /// subscription order.
    pub notifications: Vec<u64>,
}

/// The store a tick leaves behind: counter advanced, then the deferred
/// updates, then the structural commands, in enqueue order.
pub open spec fn tick_applied(
    s: StoreView,
    updates: Seq<StoreOp>,
    commands: Seq<StoreOp>,
) -> StoreView {
    s.with_tick_advanced().apply_all(updates).apply_all(commands)
}

/// Open a tick: release the reentrancy lock held since the previous tick,
/// take every world-changed listener (each is delivered at most once per
/// registration), evaluate every resource listener against the store, and
/// bind the store handle for the pass. The store itself is not touched.
pub fn begin_tick(ctx: &mut RuntimeContext, store: &Store) -> (start: TickStart)
    requires
        old(ctx).inv(),
        store.inv(),
    ensures
        final(ctx).inv(),
        final(ctx)@.locked == false,
        final(ctx)@.tick_active == true,
        final(ctx)@.listeners == Map::<u64, u64>::empty(),
        final(ctx)@.updates == old(ctx)@.updates,
        final(ctx)@.commands == old(ctx)@.commands,
        final(ctx)@.resource_listeners.len() == old(ctx)@.resource_listeners.len(),
        forall|i: int|
            0 <= i < old(ctx)@.resource_listeners.len()
                ==> final(ctx)@.resource_listeners[i]
                == old(ctx)@.resource_listeners[i].evaluated(store@),
        start.notifications@ == due_notifications(old(ctx)@.resource_listeners, store@),
        forall|i: int, j: int|
            0 <= i < j < start.world_listeners@.len()
                ==> start.world_listeners@[i].0 != start.world_listeners@[j].0,
        forall|i: int|
            0 <= i < start.world_listeners@.len() ==> old(ctx)@.listeners.contains_pair(
                #[trigger] start.world_listeners@[i].0,
                start.world_listeners@[i].1,
            ),
        forall|k: u64|
            old(ctx)@.listeners.dom().contains(k) ==> exists|i: int|
                0 <= i < start.world_listeners@.len() && #[trigger] start.world_listeners@[i].0
                    == k,
{
    ctx.set_locked(false);
    let ghost ctx1 = *ctx;
    let world_listeners = ctx.drain_world_listeners();
    proof {
        assert(ctx1@.listeners == old(ctx)@.listeners);
        assert forall|k: u64| old(ctx)@.listeners.dom().contains(k) implies exists|i: int|
            0 <= i < world_listeners@.len() && #[trigger] world_listeners@[i].0 == k by {
            assert(ctx1@.listeners.dom().contains(k));
        }
    }
    let notifications = ctx.sweep_resource_listeners(store);
    ctx.set_tick_active(true);
    let start = TickStart { world_listeners, notifications };
    proof {
        assert forall|k: u64| old(ctx)@.listeners.dom().contains(k) implies exists|i: int|
            0 <= i < start.world_listeners@.len() && #[trigger] start.world_listeners@[i].0
                == k by {
            let i = choose|i: int|
                0 <= i < start.world_listeners@.len() && start.world_listeners@[i].0 == k;
            assert(start.world_listeners@[i].0 == k);
        }
    }
    start
}

/// Close a tick: advance the store's global change counter, apply the
/// queued deferred updates and then the structural commands in enqueue
/// order, clear both queues, unbind the store handle and re-acquire the
/// reentrancy lock.
pub fn finish_tick(ctx: &mut RuntimeContext, store: &mut Store)
    requires
        old(ctx).inv(),
        old(store).inv(),
    ensures
        final(ctx).inv(),
        final(store).inv(),
        final(store)@ == tick_applied(old(store)@, old(ctx)@.updates, old(ctx)@.commands),
        final(ctx)@ == (ContextView {
            updates: Seq::<StoreOp>::empty(),
            commands: Seq::<StoreOp>::empty(),
            locked: true,
            tick_active: false,
            ..old(ctx)@
        }),
{
    store.increment_change_tick();
    let updates = ctx.take_updates();
    apply_ops(store, &updates);
    let commands = ctx.take_commands();
    apply_ops(store, &commands);
    ctx.set_tick_active(false);
    ctx.set_locked(true);
    proof {
        assert(final(ctx)@ =~= (ContextView {
            updates: Seq::<StoreOp>::empty(),
            commands: Seq::<StoreOp>::empty(),
            locked: true,
            tick_active: false,
            ..old(ctx)@
        }));
    }
}

/// A resource write applied during tick `T` becomes visible to that
/// resource's listeners exactly one tick later.
///
/// Tick `T` opens against the store `s` and its evaluation seeds the
/// listener's watermark at `s.change_tick`; whatever handles then subscribe
/// during the pass, the write queued in that same pass cannot move this
/// tick's notifications, which were computed from `s`. The write lands when
/// tick `T` closes. Tick `T + 1`, opening against that store, wakes the
/// subscribers — all of them, each exactly once. A further tick with no
/// intervening write wakes none, whatever has re-subscribed.
pub proof fn lemma_one_tick_latency(
    resource: u64,
    subs: Seq<u64>,
    resubs: Seq<u64>,
    s: StoreView,
    pre: Seq<StoreOp>,
    value: u64,
)
    ensures
        ({
            // the listener as tick T's pass leaves it: watermark seeded at
            // s.change_tick, the handles `subs` subscribed
            let l1 = ListenerView { resource, watermark: Some(s.change_tick), subscribers: subs };
            // the store as tick T leaves it: the write was queued behind
            // any other updates of the pass
            let s2 = tick_applied(
                s,
                pre.push(StoreOp::InsertResource { resource, value }),
                Seq::<StoreOp>::empty(),
            );
            // the store as a quiet tick T + 1 leaves it
            let s3 = tick_applied(s2, Seq::<StoreOp>::empty(), Seq::<StoreOp>::empty());
            let l2 = ListenerView {
                resource,
                watermark: Some(s2.change_tick),
                subscribers: resubs,
            };
            &&& due_notifications(seq![l1], s2) == subs
            &&& l1.evaluated(s2).subscribers == Seq::<u64>::empty()
            &&& due_notifications(seq![l2], s3) == Seq::<u64>::empty()
        }),
{
    let l1 = ListenerView { resource, watermark: Some(s.change_tick), subscribers: subs };
    let s2 = tick_applied(
        s,
        pre.push(StoreOp::InsertResource { resource, value }),
        Seq::<StoreOp>::empty(),
    );
    let s3 = tick_applied(s2, Seq::<StoreOp>::empty(), Seq::<StoreOp>::empty());
    let l2 = ListenerView { resource, watermark: Some(s2.change_tick), subscribers: resubs };
    lemma_deferred_update_ordering(s, pre, resource, value);
    lemma_apply_all_keeps_counters(
        s.with_tick_advanced(),
        pre.push(StoreOp::InsertResource { resource, value }),
    );
    assert(s2.change_tick == tick_inc(s.change_tick));
    assert(s3.change_tick == tick_inc(s2.change_tick));
    assert(s3.resources == s2.resources);
    crate::listener::lemma_single_notification(resource, subs, resubs, s2, s3, s.change_tick);
    assert(due_notifications(Seq::<ListenerView>::empty(), s2) =~= Seq::<u64>::empty());
    assert(due_notifications(Seq::<ListenerView>::empty(), s3) =~= Seq::<u64>::empty());
    assert(seq![l1].drop_last() =~= Seq::<ListenerView>::empty());
    assert(seq![l1].last() == l1);
    assert(due_notifications(seq![l1], s2) =~= Seq::<u64>::empty() + subs);
    assert(Seq::<u64>::empty() + subs =~= subs);
    assert(seq![l2].drop_last() =~= Seq::<ListenerView>::empty());
    assert(seq![l2].last() == l2);
    assert(due_notifications(seq![l2], s3) =~= Seq::<u64>::empty() + Seq::<u64>::empty());
    assert(Seq::<u64>::empty() + Seq::<u64>::empty() =~= Seq::<u64>::empty());
}

/// A deferred update is not visible to the pass that queued it: the reads
/// of that pass saw the store `s` as [`begin_tick`] left it, while the
/// update lands only in [`finish_tick`], after every update queued before
/// it, with a stamp one past the counter the pass ran under — the stamp
/// that wakes subscribers on the next tick.
pub proof fn lemma_deferred_update_ordering(
    s: StoreView,
    pre: Seq<StoreOp>,
    resource: u64,
    value: u64,
)
    ensures
        tick_applied(
            s,
            pre.push(StoreOp::InsertResource { resource, value }),
            Seq::<StoreOp>::empty(),
        ).resources[resource] == (ResData { value, last_changed: tick_inc(s.change_tick) }),
        tick_applied(
            s,
            pre.push(StoreOp::InsertResource { resource, value }),
            Seq::<StoreOp>::empty(),
        ).resources.dom().contains(resource),
{
    let advanced = s.with_tick_advanced();
    let op = StoreOp::InsertResource { resource, value };
    lemma_apply_all_snoc(advanced, pre, op);
    lemma_apply_all_keeps_counters(advanced, pre);
    let t = advanced.apply_all(pre);
    assert(t.change_tick == tick_inc(s.change_tick));
    assert(t.apply(op).resources[resource] == (ResData {
        value,
        last_changed: tick_inc(s.change_tick),
    }));
}

} // verus!
