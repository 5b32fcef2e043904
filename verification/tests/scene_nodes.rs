//! Spawning nodes: idempotent upserts, ambient parent linkage, explicit
//! targets, and removal tolerance.

use recompose::scene::{spawn, spawn_with, Composition, EntityBinding};
use recompose::store::Store;

#[test]
fn recomposition_upserts_one_entity() {
    let mut store = Store::new();
    let mut binding = EntityBinding::new();
    let e = spawn(10).compose(&mut store, &mut binding, None);
    assert_eq!(store.entity_count(), 1);
    assert_eq!(store.entity_value(e), Some(10));

    // recompose several times with the latest construction data
    for v in [20u64, 30, 40] {
        let again = spawn(v).compose(&mut store, &mut binding, None);
        assert_eq!(again, e);
    }
    // exactly one store object exists, carrying only the latest value
    assert_eq!(store.entity_count(), 1);
    assert_eq!(store.entity_value(e), Some(40));
}

#[test]
fn nested_spawns_chain_into_a_tree() {
    let mut store = Store::new();
    let mut bind_a = EntityBinding::new();
    let mut bind_b = EntityBinding::new();
    let mut bind_c = EntityBinding::new();

    // A (root) composes first and publishes its entity as ambient parent;
    // B consumes it and publishes its own; C likewise.
    let a = spawn(1).compose(&mut store, &mut bind_a, None);
    let b = spawn(2).compose(&mut store, &mut bind_b, Some(a));
    let c = spawn(3).compose(&mut store, &mut bind_c, Some(b));

    assert_eq!(store.entity_parent(a), None);
    assert_eq!(store.entity_parent(b), Some(a));
    assert_eq!(store.entity_parent(c), Some(b));

    // the structural edge is one-time: recomposition does not re-register
    let b2 = spawn(5).compose(&mut store, &mut bind_b, Some(a));
    assert_eq!(b2, b);
    assert_eq!(store.entity_parent(b), Some(a));
    assert_eq!(store.entity_count(), 3);
}

#[test]
fn removal_tolerates_cascaded_ancestor_removal() {
    let mut store = Store::new();
    let mut bind_a = EntityBinding::new();
    let mut bind_b = EntityBinding::new();
    let mut bind_c = EntityBinding::new();
    let a = spawn(1).compose(&mut store, &mut bind_a, None);
    let b = spawn(2).compose(&mut store, &mut bind_b, Some(a));
    let c = spawn(3).compose(&mut store, &mut bind_c, Some(b));

    // the ancestor's store object goes first, cascading over b and c
    recompose::scene::remove_binding(&mut store, &bind_a);
    assert!(!store.contains_entity(a));
    assert!(!store.contains_entity(c));

    // the descendant's own cleanup on a later tick is a harmless no-op
    recompose::scene::remove_binding(&mut store, &bind_c);
    recompose::scene::remove_binding(&mut store, &bind_b);
    assert_eq!(store.entity_count(), 0);

    // a binding that never composed removes nothing
    let empty = EntityBinding::new();
    recompose::scene::remove_binding(&mut store, &empty);
    assert_eq!(store.entity_count(), 0);
}

#[test]
fn explicit_target_writes_in_place_and_skips_parent_registration() {
    let mut store = Store::new();
    let parent = store.spawn(0);
    let target = store.spawn(0);

    let mut binding = EntityBinding::new();
    let node = spawn_with(77u64, ()).with_target(target);
    let e = node.compose(&mut store, &mut binding, Some(parent));
    assert_eq!(e, target);
    assert_eq!(store.entity_value(target), Some(77));
    // explicit targets bypass the ambient parent
    assert_eq!(store.entity_parent(target), None);
    assert_eq!(store.entity_count(), 2);
}

#[test]
fn spawn_builders_keep_their_target() {
    let mut node = spawn_with(5u64, ());
    assert_eq!(node.target(), None);
    node.set_target(Some(9));
    assert_eq!(node.target(), Some(9));
    node.set_target(None);
    assert_eq!(node.target(), None);
    let node = node.with_target(4);
    assert_eq!(node.target(), Some(4));
    assert_eq!(*node.content(), ());
}

#[test]
fn use_bundle_spawns_once_and_updates_in_place() {
    let mut store = Store::new();
    let mut binding = EntityBinding::new();
    let e = recompose::scene::use_bundle(&mut store, &mut binding, 3);
    let e2 = recompose::scene::use_bundle(&mut store, &mut binding, 4);
    assert_eq!(e, e2);
    assert_eq!(binding.entity(), Some(e));
    assert_eq!(store.entity_count(), 1);
    assert_eq!(store.entity_value(e), Some(4));
}

#[test]
fn composition_carries_content_and_target() {
    let mut comp = Composition::new(123u64);
    assert_eq!(comp.target(), None);
    assert_eq!(comp.target_or(8), 8);
    comp.set_target(Some(2));
    assert_eq!(comp.target(), Some(2));
    assert_eq!(comp.target_or(8), 2);
    let mut comp = comp.with_target(5);
    assert_eq!(comp.target(), Some(5));
    // the host takes the content once to drive it as a composition root
    assert_eq!(comp.take_content(), Some(123));
    assert_eq!(comp.take_content(), None);
}
