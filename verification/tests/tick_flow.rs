//! The tick protocol: listener delivery, change detection, and the
//! ordering of reads, deferred updates and commands.

use recompose::context::RuntimeContext;
use recompose::driver::{begin_tick, finish_tick};
use recompose::ops::StoreOp;
use recompose::store::Store;

const COUNTER: u64 = 100;

#[test]
fn world_listeners_fire_once_and_must_re_register() {
    let mut ctx = RuntimeContext::new();
    let store = Store::new();
    let k1 = ctx.register_listener(11).unwrap();
    let k2 = ctx.register_listener(22).unwrap();
    assert_ne!(k1, k2);

    let start = begin_tick(&mut ctx, &store);
    let mut handles: Vec<u64> = start.world_listeners.iter().map(|p| p.1).collect();
    handles.sort();
    assert_eq!(handles, vec![11, 22]);

    let mut store = store;
    finish_tick(&mut ctx, &mut store);

    // at-most-once-per-tick delivery: nothing fires without re-registration
    let start = begin_tick(&mut ctx, &store);
    assert!(start.world_listeners.is_empty());
}

#[test]
fn unregistered_listener_does_not_fire() {
    let mut ctx = RuntimeContext::new();
    let store = Store::new();
    let k1 = ctx.register_listener(11).unwrap();
    let _k2 = ctx.register_listener(22).unwrap();
    assert_eq!(ctx.unregister_listener(k1), Some(11));
    // removing it again (or a key that already fired) is tolerated
    assert_eq!(ctx.unregister_listener(k1), None);

    let start = begin_tick(&mut ctx, &store);
    let handles: Vec<u64> = start.world_listeners.iter().map(|p| p.1).collect();
    assert_eq!(handles, vec![22]);
}

#[test]
fn lock_is_released_for_the_pass_and_re_acquired_after() {
    let mut ctx = RuntimeContext::new();
    let mut store = Store::new();
    assert!(!ctx.locked());
    let _ = begin_tick(&mut ctx, &store);
    assert!(!ctx.locked());
    assert!(ctx.tick_active());
    finish_tick(&mut ctx, &mut store);
    assert!(ctx.locked());
    assert!(!ctx.tick_active());
}

/// One tick: open, run `pass` in place of the recomposition pass, close.
fn tick(
    ctx: &mut RuntimeContext,
    store: &mut Store,
    pass: impl FnOnce(&mut RuntimeContext, &mut Store),
) -> Vec<u64> {
    let start = begin_tick(ctx, store);
    pass(ctx, store);
    finish_tick(ctx, store);
    start.notifications
}

#[test]
fn subscribers_fire_once_per_change_and_not_on_quiet_ticks() {
    let mut ctx = RuntimeContext::new();
    let mut store = Store::new();
    store.insert_resource(COUNTER, 0);

    // tick 1: two handles subscribe during the pass
    let woken = tick(&mut ctx, &mut store, |ctx, _| {
        ctx.register_resource_listener(COUNTER, 1);
        ctx.register_resource_listener(COUNTER, 2);
    });
    assert!(woken.is_empty());

    // tick 2: first evaluation seeds the watermark and always fires
    let woken = tick(&mut ctx, &mut store, |ctx, _| {
        ctx.register_resource_listener(COUNTER, 1);
        ctx.register_resource_listener(COUNTER, 2);
    });
    assert_eq!(woken, vec![1, 2]);

    // tick 3: no intervening write — zero notifications, subscriptions kept
    let woken = tick(&mut ctx, &mut store, |_, _| {});
    assert!(woken.is_empty());

    // tick 4: still quiet
    let woken = tick(&mut ctx, &mut store, |ctx, _| {
        // a single write lands through the update queue at the end of this tick
        ctx.push_update(StoreOp::InsertResource { resource: COUNTER, value: 7 });
    });
    assert!(woken.is_empty());

    // tick 5: the single write wakes each subscriber exactly once
    let woken = tick(&mut ctx, &mut store, |_, _| {});
    assert_eq!(woken, vec![1, 2]);

    // tick 6: they were dropped and did not re-subscribe — nothing fires
    let woken = tick(&mut ctx, &mut store, |_, _| {});
    assert!(woken.is_empty());
}

#[test]
fn use_resource_reads_and_watches() {
    let mut ctx = RuntimeContext::new();
    let mut store = Store::new();
    store.insert_resource(COUNTER, 5);

    // tick 1: the node reads the resource and is subscribed in one step
    let woken = tick(&mut ctx, &mut store, |ctx, store| {
        assert_eq!(ctx.use_resource(store, COUNTER, 9), Some(5));
        assert_eq!(ctx.use_resource(store, COUNTER + 1, 10), None);
    });
    assert!(woken.is_empty());

    // tick 2: both listeners seed their watermarks and fire once
    let woken = tick(&mut ctx, &mut store, |_, _| {});
    assert_eq!(woken, vec![9, 10]);

    // tick 3: quiet
    let woken = tick(&mut ctx, &mut store, |_, _| {});
    assert!(woken.is_empty());
}

#[test]
fn deferred_update_is_not_visible_to_the_pass_that_queued_it() {
    let mut ctx = RuntimeContext::new();
    let mut store = Store::new();
    store.insert_resource(COUNTER, 1);

    let start = begin_tick(&mut ctx, &store);
    assert!(start.notifications.is_empty());
    // the pass reads the resource and queues an update to it
    let read_during_pass = store.get_resource(COUNTER);
    ctx.push_update(StoreOp::InsertResource { resource: COUNTER, value: 2 });
    // the read saw the pre-tick state
    assert_eq!(read_during_pass, Some(1));
    assert_eq!(store.get_resource(COUNTER), Some(1));
    finish_tick(&mut ctx, &mut store);
    // the update applied after the pass, stamped with the advanced counter
    assert_eq!(store.get_resource(COUNTER), Some(2));
    assert_eq!(store.resource_last_changed(COUNTER), Some(store.read_change_tick()));
}

#[test]
fn updates_apply_in_enqueue_order_then_commands() {
    let mut ctx = RuntimeContext::new();
    let mut store = Store::new();
    let a = store.spawn(0);
    let b = store.spawn(0);

    let _ = begin_tick(&mut ctx, &store);
    ctx.push_update(StoreOp::InsertResource { resource: 5, value: 1 });
    ctx.push_update(StoreOp::InsertResource { resource: 5, value: 2 });
    ctx.push_command(StoreOp::AddChild { parent: a, child: b });
    ctx.push_update(StoreOp::SetEntityValue { entity: b, value: 9 });
    finish_tick(&mut ctx, &mut store);

    // last queued update wins; the structural command ran after the updates
    assert_eq!(store.get_resource(5), Some(2));
    assert_eq!(store.entity_value(b), Some(9));
    assert_eq!(store.entity_parent(b), Some(a));

    // queues were drained: a further tick applies nothing
    let before = store.get_resource(5);
    let _ = begin_tick(&mut ctx, &store);
    finish_tick(&mut ctx, &mut store);
    assert_eq!(store.get_resource(5), before);
}

#[test]
fn counter_scenario_one_tick_latency() {
    // A node subscribes to a counter resource, records what it reads when
    // woken, and re-subscribes. A background completion lands its write
    // through the update queue during tick 2; the node observes it in
    // tick 3 and nothing afterwards.
    const HANDLE: u64 = 900;
    let mut ctx = RuntimeContext::new();
    let mut store = Store::new();
    let mut recorded: Vec<u64> = Vec::new();

    // tick 1: the resource is created and the node subscribes
    let start = begin_tick(&mut ctx, &store);
    assert!(start.notifications.is_empty());
    ctx.push_update(StoreOp::InsertResource { resource: COUNTER, value: 0 });
    ctx.register_resource_listener(COUNTER, HANDLE);
    finish_tick(&mut ctx, &mut store);

    // ticks 2..=5: the node reacts to whatever the driver wakes
    for tick_no in 2..=5 {
        let start = begin_tick(&mut ctx, &store);
        for &h in &start.notifications {
            assert_eq!(h, HANDLE);
            recorded.push(store.get_resource(COUNTER).unwrap());
            ctx.register_resource_listener(COUNTER, HANDLE);
        }
        if tick_no == 2 {
            // the background task completed; its result arrives as a
            // deferred update and applies at the end of this tick
            ctx.push_update(StoreOp::InsertResource { resource: COUNTER, value: 1 });
        }
        finish_tick(&mut ctx, &mut store);
    }

    // woken at tick 2 (seeding, reads 0) and tick 3 (the write), then quiet
    assert_eq!(recorded, vec![0, 1]);
}
