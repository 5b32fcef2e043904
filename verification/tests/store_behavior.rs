//! Behaviour of the modelled store: resources, entities, parent links and
//! cascading removal.

use recompose::ops::StoreOp;
use recompose::store::Store;
use recompose::ticks::tick_newer_than;

#[test]
fn resource_insert_and_get() {
    let mut store = Store::new();
    assert_eq!(store.get_resource(7), None);
    store.insert_resource(7, 41);
    assert_eq!(store.get_resource(7), Some(41));
    store.insert_resource(7, 42);
    assert_eq!(store.get_resource(7), Some(42));
    assert_eq!(store.get_resource(8), None);
}

#[test]
fn resource_write_is_stamped_with_current_counter() {
    let mut store = Store::new();
    store.insert_resource(1, 10);
    assert_eq!(store.resource_last_changed(1), Some(0));
    store.increment_change_tick();
    store.increment_change_tick();
    store.insert_resource(1, 11);
    assert_eq!(store.resource_last_changed(1), Some(2));
    assert_eq!(store.read_change_tick(), 2);
}

#[test]
fn newer_than_basic_and_equal() {
    // stamp 5 against watermark 4, seen from counter 10: newer.
    assert!(tick_newer_than(5, 4, 10));
    // a stamp as old as the watermark is not newer.
    assert!(!tick_newer_than(4, 4, 10));
    // an older stamp is not newer.
    assert!(!tick_newer_than(3, 4, 10));
}

#[test]
fn newer_than_across_wraparound() {
    // counter wrapped: stamp just before the wrap, watermark older still.
    assert!(tick_newer_than(0xffff_ffff, 0xffff_fffd, 2));
    assert!(!tick_newer_than(0xffff_fffd, 0xffff_ffff, 2));
    // stamp after the wrap, watermark before it.
    assert!(tick_newer_than(1, 0xffff_fffe, 3));
}

#[test]
fn spawn_assigns_fresh_identifiers() {
    let mut store = Store::new();
    let a = store.spawn(10);
    let b = store.spawn(20);
    assert_ne!(a, b);
    assert_eq!(store.entity_value(a), Some(10));
    assert_eq!(store.entity_value(b), Some(20));
    assert_eq!(store.entity_count(), 2);
    assert!(store.contains_entity(a));
    assert!(!store.contains_entity(b + 1));
}

#[test]
fn insert_on_updates_only_existing_entities() {
    let mut store = Store::new();
    let a = store.spawn(1);
    assert!(store.insert_on(a, 5));
    assert_eq!(store.entity_value(a), Some(5));
    assert!(!store.insert_on(a + 1, 9));
    assert_eq!(store.entity_count(), 1);
}

#[test]
fn add_child_links_and_refuses_bad_links() {
    let mut store = Store::new();
    let a = store.spawn(1);
    let b = store.spawn(2);
    assert_eq!(store.entity_parent(b), None);
    assert!(store.add_child(a, b));
    assert_eq!(store.entity_parent(b), Some(a));
    // a parent must exist and be older than its child
    assert!(!store.add_child(b, a));
    assert!(!store.add_child(b + 7, b));
    assert!(!store.add_child(a, a));
    assert_eq!(store.entity_parent(b), Some(a));
}

#[test]
fn despawn_cascades_over_descendants() {
    let mut store = Store::new();
    let a = store.spawn(1);
    let b = store.spawn(2);
    let c = store.spawn(3);
    let d = store.spawn(4);
    assert!(store.add_child(a, b));
    assert!(store.add_child(b, c));
    assert!(store.despawn(a));
    assert!(!store.contains_entity(a));
    assert!(!store.contains_entity(b));
    assert!(!store.contains_entity(c));
    assert!(store.contains_entity(d));
    assert_eq!(store.entity_count(), 1);
}

#[test]
fn despawn_of_inner_node_keeps_ancestors() {
    let mut store = Store::new();
    let a = store.spawn(1);
    let b = store.spawn(2);
    let c = store.spawn(3);
    assert!(store.add_child(a, b));
    assert!(store.add_child(b, c));
    assert!(store.despawn(b));
    assert!(store.contains_entity(a));
    assert!(!store.contains_entity(b));
    assert!(!store.contains_entity(c));
}

#[test]
fn despawn_is_idempotent() {
    let mut store = Store::new();
    let a = store.spawn(1);
    assert!(store.despawn(a));
    assert!(!store.despawn(a));
    assert!(!store.despawn(a + 100));
    assert_eq!(store.entity_count(), 0);
}

#[test]
fn deferred_ops_tolerate_absent_entities() {
    let mut store = Store::new();
    let a = store.spawn(1);
    store.despawn(a);
    store.apply_op(StoreOp::SetEntityValue { entity: a, value: 9 });
    store.apply_op(StoreOp::Despawn { entity: a });
    store.apply_op(StoreOp::AddChild { parent: a, child: a });
    assert_eq!(store.entity_count(), 0);
    store.apply_op(StoreOp::InsertResource { resource: 3, value: 30 });
    assert_eq!(store.get_resource(3), Some(30));
}
