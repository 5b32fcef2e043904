//! Declarative spawn nodes and their entity bindings.
//!
//! A spawning node owns one store entity. On its first composition it
//! either spawns a fresh entity or, when it declares an explicit target,
//! writes to that entity directly; the identifier is cached in an
//! [`EntityBinding`] for the node's lifetime. Every recomposition is an
//! upsert against the cached (or explicit) entity, never a
//! delete-and-recreate. A node without an explicit target registers itself,
//! once, as a child of the ambient parent entity, and publishes its own
//! entity as the ambient parent for its descendants. When the node is
//! dropped, its entity is removed; removal tolerates the entity already
//! being gone.

use crate::store::{EntData, Store, StoreView};
use vstd::prelude::*;

verus! {

/// The cached binding of a spawning node: the store entity it owns, absent
/// until the node's first composition.
pub struct EntityBinding {
    entity: Option<u64>,
}

impl EntityBinding {
    /// The bound entity, if the node has composed.
    pub closed spec fn spec_entity(self) -> Option<u64> {
        self.entity
    }

    /// A binding that has not composed yet.
    pub fn new() -> (b: EntityBinding)
        ensures
            b.spec_entity() == None::<u64>,
    {
        EntityBinding { entity: None }
    }

    /// The bound entity, if any.
    pub fn entity(&self) -> (r: Option<u64>)
        ensures
            r == self.spec_entity(),
    {
        self.entity
    }
}

/// The entity a binding writes on one composition: the explicit target when
/// declared, else the cached entity, else a fresh one.
pub open spec fn bind_written(cached: Option<u64>, target: Option<u64>, fresh: u64) -> u64 {
    match target {
        Some(t) => t,
        None => match cached {
            Some(e) => e,
            None => fresh,
        },
    }
}

/// The entity a binding caches and returns: the already-cached one, or on
/// first composition the one written.
pub open spec fn bind_cached(cached: Option<u64>, target: Option<u64>, fresh: u64) -> u64 {
    match cached {
        Some(e) => e,
        None => bind_written(cached, target, fresh),
    }
}

/// Create or update the store object of a spawning node. On the first
/// composition (no cached entity) a fresh entity is spawned — or the
/// explicit target is written — and cached; on every later composition the
/// data is re-applied in place to the written entity: an upsert, never a
/// delete-and-recreate.
pub fn use_bundle_inner(
    store: &mut Store,
    binding: &mut EntityBinding,
    target: Option<u64>,
    value: u64,
) -> (e: u64)
    requires
        old(store).inv(),
        match target {
            Some(t) => old(store)@.entities.dom().contains(t),
            None => match old(binding).spec_entity() {
                Some(e0) => old(store)@.entities.dom().contains(e0),
                None => old(store)@.next_entity < u64::MAX,
            },
        },
    ensures
        final(store).inv(),
        e == bind_cached(old(binding).spec_entity(), target, old(store)@.next_entity),
        final(binding).spec_entity() == Some(e),
        ({
            let written = bind_written(old(binding).spec_entity(), target, old(store)@.next_entity);
            if old(binding).spec_entity() is None && target is None {
                final(store)@ == (StoreView {
                    entities: old(store)@.entities.insert(written, EntData { value, parent: None }),
                    next_entity: (written + 1) as u64,
                    ..old(store)@
                })
            } else {
                final(store)@ == (StoreView {
                    entities: old(store)@.entities.insert(
                        written,
                        EntData { value, parent: old(store)@.entities[written].parent },
                    ),
                    ..old(store)@
                })
            }
        }),
{
    match (binding.entity, target) {
        (None, None) => {
            let e = store.spawn(value);
            binding.entity = Some(e);
            e
        },
        (None, Some(t)) => {
            let _ = store.insert_on(t, value);
            binding.entity = Some(t);
            t
        },
        (Some(e0), Some(t)) => {
            let _ = store.insert_on(t, value);
            e0
        },
        (Some(e0), None) => {
            let _ = store.insert_on(e0, value);
            e0
        },
    }
}

/// Use a spawned store object: spawn it on first composition, update its
/// data in place on every later one. The node owns the object for its
/// lifetime; drop it with [`remove_binding`].
pub fn use_bundle(store: &mut Store, binding: &mut EntityBinding, value: u64) -> (e: u64)
    requires
        old(store).inv(),
        match old(binding).spec_entity() {
            Some(e0) => old(store)@.entities.dom().contains(e0),
            None => old(store)@.next_entity < u64::MAX,
        },
    ensures
        final(store).inv(),
        e == bind_cached(old(binding).spec_entity(), None, old(store)@.next_entity),
        final(binding).spec_entity() == Some(e),
        if old(binding).spec_entity() is None {
            final(store)@ == (StoreView {
                entities: old(store)@.entities.insert(e, EntData { value, parent: None }),
                next_entity: (e + 1) as u64,
                ..old(store)@
            })
        } else {
            final(store)@ == (StoreView {
                entities: old(store)@.entities.insert(
                    e,
                    EntData { value, parent: old(store)@.entities[e].parent },
                ),
                ..old(store)@
            })
        },
{
    use_bundle_inner(store, binding, None, value)
}

/// Remove the store object a node owns, if it ever bound one. Removal is
/// idempotent: an object already gone — an ancestor's removal may have
/// cascaded over it — is a no-op, not an error.
pub fn remove_binding(store: &mut Store, binding: &EntityBinding)
    requires
        old(store).inv(),
    ensures
        final(store).inv(),
        final(store)@ == match binding.spec_entity() {
            Some(e) => old(store)@.despawned(e),
            None => old(store)@,
        },
{
    match binding.entity {
        Some(e) => {
            let _ = store.despawn(e);
        },
        None => {},
    }
}

/// A composable that spawns a store object carrying `value` when composed,
/// with some content as its children.
pub struct SpawnWith<C> {
    value: u64,
    content: C,
    target: Option<u64>,
}

/// Create a spawn composable that spawns the provided data when composed.
///
/// On re-composition, the spawned entity is updated to the latest value.
pub fn spawn(value: u64) -> (s: SpawnWith<()>)
    ensures
        s.spec_value() == value,
        s.spec_target() == None::<u64>,
{
    spawn_with(value, ())
}

/// Create a spawn composable that spawns the provided data when composed,
/// with some content as its children.
///
/// On re-composition, the spawned entity is updated to the latest value.
pub fn spawn_with<C>(value: u64, content: C) -> (s: SpawnWith<C>)
    ensures
        s.spec_value() == value,
        s.spec_target() == None::<u64>,
        s.spec_content() == content,
{
    SpawnWith { value, content, target: None }
}

impl<C> SpawnWith<C> {
    /// The data the spawned entity carries.
    pub closed spec fn spec_value(self) -> u64 {
        self.value
    }

    /// The nested content.
    pub closed spec fn spec_content(self) -> C {
        self.content
    }

    /// The declared target entity, if any.
    pub closed spec fn spec_target(self) -> Option<u64> {
        self.target
    }

    /// Get the target entity to spawn into.
    ///
    /// If `None`, this will use the node's ambient parent (if any).
    pub fn target(&self) -> (r: Option<u64>)
        ensures
            r == self.spec_target(),
    {
        self.target
    }

    /// Set the target entity to spawn into.
    ///
    /// If `None`, this will use the node's ambient parent (if any).
    pub fn set_target(&mut self, target: Option<u64>)
        ensures
            final(self).spec_target() == target,
            final(self).spec_value() == old(self).spec_value(),
            final(self).spec_content() == old(self).spec_content(),
    {
        self.target = target;
    }

    /// Set the target entity to spawn into.
    ///
    /// If `None`, this will use the node's ambient parent (if any).
    pub fn with_target(self, target: u64) -> (s: Self)
        ensures
            s.spec_target() == Some(target),
            s.spec_value() == self.spec_value(),
            s.spec_content() == self.spec_content(),
    {
        SpawnWith { target: Some(target), ..self }
    }

    /// The nested content, to be composed beneath this node.
    pub fn content(&self) -> (r: &C)
        ensures
            r == self.spec_content(),
    {
        &self.content
    }

    /// Compose this node once. On first composition the entity is created
    /// (or the explicit target written) and — only then, and only without
    /// an explicit target — registered as a child of the ambient parent
    /// entity `parent`. Every composition upserts the node's data. The
    /// returned entity is what the node publishes as the ambient parent for
    /// its descendants.
    pub fn compose(
        &self,
        store: &mut Store,
        binding: &mut EntityBinding,
        parent: Option<u64>,
    ) -> (e: u64)
        requires
            old(store).inv(),
            match self.spec_target() {
                Some(t) => old(store)@.entities.dom().contains(t),
                None => match old(binding).spec_entity() {
                    Some(e0) => old(store)@.entities.dom().contains(e0),
                    None => old(store)@.next_entity < u64::MAX,
                },
            },
            old(binding).spec_entity() is None && self.spec_target() is None ==> match parent {
                Some(p) => old(store)@.entities.dom().contains(p),
                None => true,
            },
        ensures
            final(store).inv(),
            e == bind_cached(
                old(binding).spec_entity(),
                self.spec_target(),
                old(store)@.next_entity,
            ),
            final(binding).spec_entity() == Some(e),
            ({
                let written = bind_written(
                    old(binding).spec_entity(),
                    self.spec_target(),
                    old(store)@.next_entity,
                );
                let value = self.spec_value();
                if old(binding).spec_entity() is None && self.spec_target() is None {
                    final(store)@ == (StoreView {
                        entities: old(store)@.entities.insert(
                            written,
                            EntData { value, parent },
                        ),
                        next_entity: (written + 1) as u64,
                        ..old(store)@
                    })
                } else {
                    final(store)@ == (StoreView {
                        entities: old(store)@.entities.insert(
                            written,
                            EntData { value, parent: old(store)@.entities[written].parent },
                        ),
                        ..old(store)@
                    })
                }
            }),
    {
        proof {
            store.lemma_inv_wf();
        }
        let first = binding.entity().is_none();
        let e = use_bundle_inner(store, binding, self.target(), self.value);
        if first && self.target().is_none() {
            match parent {
                Some(p) => {
                    proof {
                        assert(p < e);
                        assert(store@.can_link(p, e));
                    }
                    let ok = store.add_child(p, e);
                    proof {
                        assert(ok);
                        assert(store@.entities =~= old(store)@.entities.insert(
                            e,
                            EntData { value: self.spec_value(), parent },
                        ));
                        assert(store@ =~= (StoreView {
                            entities: store@.entities,
                            next_entity: (e + 1) as u64,
                            ..old(store)@
                        }));
                    }
                },
                None => {},
            }
        }
        e
    }
}

/// Composition of some composable content, attached to a store object.
///
/// The host observes a store object carrying one of these, takes the
/// content out, and drives it as a composition root; the root publishes the
/// resolved target entity as the ambient parent for its descendants.
pub struct Composition<C> {
    content: Option<C>,
    target: Option<u64>,
}

impl<C> Composition<C> {
    /// The content, until the host takes it.
    pub closed spec fn spec_content(self) -> Option<C> {
        self.content
    }

    /// The declared target entity, if any.
    pub closed spec fn spec_target(self) -> Option<u64> {
        self.target
    }

    /// Create a new composition from its content.
    pub fn new(content: C) -> (c: Composition<C>)
        ensures
            c.spec_content() == Some(content),
            c.spec_target() == None::<u64>,
    {
        Composition { content: Some(content), target: None }
    }

    /// Get the target entity to spawn the composition into.
    ///
    /// If `None`, this will use the composition's own store object.
    pub fn target(&self) -> (r: Option<u64>)
        ensures
            r == self.spec_target(),
    {
        self.target
    }

    /// Set the target entity to spawn the composition into.
    ///
    /// If `None`, this will use the composition's own store object.
    pub fn set_target(&mut self, target: Option<u64>)
        ensures
            final(self).spec_target() == target,
            final(self).spec_content() == old(self).spec_content(),
    {
        self.target = target;
    }

    /// Set the target entity to spawn the composition into.
    ///
    /// If `None`, this will use the composition's own store object.
    pub fn with_target(self, target: u64) -> (c: Self)
        ensures
            c.spec_target() == Some(target),
            c.spec_content() == self.spec_content(),
    {
        Composition { target: Some(target), ..self }
    }

    /// Take the content out, to be driven as a composition root.
    pub fn take_content(&mut self) -> (r: Option<C>)
        ensures
            r == old(self).spec_content(),
            final(self).spec_content() == None::<C>,
            final(self).spec_target() == old(self).spec_target(),
    {
        self.content.take()
    }

    /// The entity the composition root spawns into: the declared target,
    /// or the composition's own store object `entity`.
    pub fn target_or(&self, entity: u64) -> (r: u64)
        ensures
            r == match self.spec_target() {
                Some(t) => t,
                None => entity,
            },
    {
        match self.target {
            Some(t) => t,
            None => entity,
        }
    }
}

/// Nested spawning nodes chain into a tree. Composing, for the first time
/// and with no explicit targets, a root node A, then a node B under A's
/// published context, then a node C under B's — each step being exactly
/// what [`SpawnWith::compose`] leaves behind — yields C's store object as a
/// descendant of B's, B's as a descendant of A's, and hence C's as a
/// descendant of A's, in a still well-formed store.
pub proof fn lemma_nested_spawn_linkage(v: StoreView, va: u64, vb: u64, vc: u64)
    requires
        v.wf(),
        v.next_entity + 2 < u64::MAX,
    ensures
        ({
            let a = v.next_entity;
            let v1 = StoreView {
                entities: v.entities.insert(a, EntData { value: va, parent: None }),
                next_entity: (a + 1) as u64,
                ..v
            };
            let b = v1.next_entity;
            let v2 = StoreView {
                entities: v1.entities.insert(b, EntData { value: vb, parent: Some(a) }),
                next_entity: (b + 1) as u64,
                ..v1
            };
            let c = v2.next_entity;
            let v3 = StoreView {
                entities: v2.entities.insert(c, EntData { value: vc, parent: Some(b) }),
                next_entity: (c + 1) as u64,
                ..v2
            };
            &&& v3.desc_of(b, c)
            &&& v3.desc_of(a, b)
            &&& v3.desc_of(a, c)
            &&& v3.wf()
        }),
{
    let a = v.next_entity;
    let v1 = StoreView {
        entities: v.entities.insert(a, EntData { value: va, parent: None }),
        next_entity: (a + 1) as u64,
        ..v
    };
    let b = v1.next_entity;
    let v2 = StoreView {
        entities: v1.entities.insert(b, EntData { value: vb, parent: Some(a) }),
        next_entity: (b + 1) as u64,
        ..v1
    };
    let c = v2.next_entity;
    let v3 = StoreView {
        entities: v2.entities.insert(c, EntData { value: vc, parent: Some(b) }),
        next_entity: (c + 1) as u64,
        ..v2
    };
    assert(v3.entities[c].parent == Some(b) && v3.entities[b].parent == Some(a));
    assert(v3.desc_of(a, a));
    assert(v3.desc_of(b, b));
    assert(v3.desc_of(b, c));
    assert(v3.desc_of(a, b));
    crate::store::lemma_desc_of_transitive(v3, a, b, c);
    assert(v3.wf()) by {
        assert forall|id: u64| #[trigger] v3.entities.dom().contains(id) implies id
            < v3.next_entity && (match v3.entities[id].parent {
            Some(p) => p < id && v3.entities.dom().contains(p),
            None => true,
        }) by {
            if id != a && id != b && id != c {
                assert(v.entities.dom().contains(id));
                assert(v3.entities[id] == v.entities[id]);
            }
        }
    }
}

/// The store after a bound spawning node is recomposed once per value of
/// `vs`, oldest first: each recomposition re-applies its data to the same
/// entity in place.
pub open spec fn upserts(v: StoreView, e: u64, vs: Seq<u64>) -> StoreView
    decreases vs.len(),
{
    if vs.len() == 0 {
        v
    } else {
        let w = upserts(v, e, vs.drop_last());
        StoreView {
            entities: w.entities.insert(
                e,
                EntData { value: vs.last(), parent: w.entities[e].parent },
            ),
            ..w
        }
    }
}

/// Recomposition is an idempotent upsert: a node recomposed any number of
/// times against the same bound entity leaves exactly the entities that
/// existed before — no object is created or destroyed — and the attached
/// data reflects only the latest value; parent links are untouched.
pub proof fn lemma_upsert_idempotent(v: StoreView, e: u64, vs: Seq<u64>)
    requires
        v.entities.dom().contains(e),
        vs.len() >= 1,
    ensures
        upserts(v, e, vs).entities.dom() == v.entities.dom(),
        upserts(v, e, vs).entities[e].value == vs.last(),
        upserts(v, e, vs).entities[e].parent == v.entities[e].parent,
        forall|x: u64|
            x != e && v.entities.dom().contains(x) ==> upserts(v, e, vs).entities[x]
                == v.entities[x],
        upserts(v, e, vs).next_entity == v.next_entity,
        upserts(v, e, vs).change_tick == v.change_tick,
        upserts(v, e, vs).resources == v.resources,
    decreases vs.len(),
{
    if vs.len() > 1 {
        lemma_upsert_idempotent(v, e, vs.drop_last());
    } else {
        assert(vs.drop_last().len() == 0);
        assert(upserts(v, e, vs.drop_last()) == v);
    }
    assert(upserts(v, e, vs).entities.dom() =~= v.entities.dom());
}

} // verus!
