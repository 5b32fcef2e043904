//! Deferred store mutations.
//!
//! Mutations requested during a composition pass are not applied on the
//! spot: they are queued as plain [`StoreOp`] values and applied by the
//! driver after the pass, in enqueue order. Each operation is total — an
//! operation aimed at an entity that is already gone is a no-op, because
//! cascading structural deletion can race ahead of an individual node's own
//! cleanup.

use crate::store::{lemma_despawned_wf, EntData, ResData, Store, StoreView};
use vstd::prelude::*;

verus! {

/// One deferred mutation of the store.
#[derive(Clone, Copy, Debug)]
pub enum StoreOp {
    /// Write a resource, creating it if absent. The write is stamped with
    /// the counter value current at application time.
    InsertResource {
        /// The resource-type identifier.
        resource: u64,
        /// The value to store.
        value: u64,
    },
    /// Replace the data attached to an entity, keeping its parent link.
    SetEntityValue {
        /// The entity to write.
        entity: u64,
        /// The data to attach.
        value: u64,
    },
    /// Register an entity as a child of another.
    AddChild {
        /// The parent entity.
        parent: u64,
        /// The child entity.
        child: u64,
    },
    /// Remove an entity together with its descendants.
    Despawn {
        /// The entity to remove.
        entity: u64,
    },
}

impl StoreView {
    /// Effect of one deferred operation.
    pub open spec fn apply(self, op: StoreOp) -> StoreView {
        match op {
            StoreOp::InsertResource { resource, value } => StoreView {
                resources: self.resources.insert(
                    resource,
                    ResData { value, last_changed: self.change_tick },
                ),
                ..self
            },
            StoreOp::SetEntityValue { entity, value } => if self.entities.dom().contains(entity) {
                StoreView {
                    entities: self.entities.insert(
                        entity,
                        EntData { value, parent: self.entities[entity].parent },
                    ),
                    ..self
                }
            } else {
                self
            },
            StoreOp::AddChild { parent, child } => if self.can_link(parent, child) {
                StoreView {
                    entities: self.entities.insert(
                        child,
                        EntData { value: self.entities[child].value, parent: Some(parent) },
                    ),
                    ..self
                }
            } else {
                self
            },
            StoreOp::Despawn { entity } => self.despawned(entity),
        }
    }

    /// Effect of a queue of operations, applied first to last.
    pub open spec fn apply_all(self, ops: Seq<StoreOp>) -> StoreView
        decreases ops.len(),
    {
        if ops.len() == 0 {
            self
        } else {
            self.apply(ops[0]).apply_all(ops.drop_first())
        }
    }
}

/// Every deferred operation keeps the store well-formed.
pub proof fn lemma_apply_preserves_wf(v: StoreView, op: StoreOp)
    requires
        v.wf(),
    ensures
        v.apply(op).wf(),
{
    match op {
        StoreOp::Despawn { entity } => {
            lemma_despawned_wf(v, entity);
        },
        _ => {},
    }
}

/// A queue of operations extended at the back applies as the queue followed
/// by the new operation.
pub proof fn lemma_apply_all_snoc(v: StoreView, ops: Seq<StoreOp>, op: StoreOp)
    ensures
        v.apply_all(ops.push(op)) == v.apply_all(ops).apply(op),
    decreases ops.len(),
{
    let snoc = ops.push(op);
    assert(snoc.len() > 0);
    assert(v.apply_all(snoc) == v.apply(snoc[0]).apply_all(snoc.drop_first()));
    if ops.len() == 0 {
        assert(snoc[0] == op);
        assert(snoc.drop_first() =~= Seq::<StoreOp>::empty());
        assert(v.apply(op).apply_all(snoc.drop_first()) == v.apply(op));
    } else {
        assert(snoc[0] == ops[0]);
        assert(snoc.drop_first() =~= ops.drop_first().push(op));
        lemma_apply_all_snoc(v.apply(ops[0]), ops.drop_first(), op);
        assert(v.apply_all(ops) == v.apply(ops[0]).apply_all(ops.drop_first()));
    }
}

/// No deferred operation moves the change counter or the fresh-entity
/// counter: all writes of one application phase carry the same stamp.
pub proof fn lemma_apply_all_keeps_counters(s: StoreView, ops: Seq<StoreOp>)
    ensures
        s.apply_all(ops).change_tick == s.change_tick,
        s.apply_all(ops).next_entity == s.next_entity,
    decreases ops.len(),
{
    if ops.len() > 0 {
        lemma_apply_all_keeps_counters(s.apply(ops[0]), ops.drop_first());
    }
}

impl Store {
    /// Apply one deferred operation to the live store.
    pub fn apply_op(&mut self, op: StoreOp)
        requires
            old(self).inv(),
        ensures
            final(self).inv(),
            final(self)@ == old(self)@.apply(op),
    {
        match op {
            StoreOp::InsertResource { resource, value } => {
                self.insert_resource(resource, value);
            },
            StoreOp::SetEntityValue { entity, value } => {
                let _ = self.insert_on(entity, value);
            },
            StoreOp::AddChild { parent, child } => {
                let _ = self.add_child(parent, child);
            },
            StoreOp::Despawn { entity } => {
                let _ = self.despawn(entity);
            },
        }
    }
}

/// Apply a queue of deferred operations to the live store, first to last.
pub fn apply_ops(store: &mut Store, ops: &Vec<StoreOp>)
    requires
        old(store).inv(),
    ensures
        final(store).inv(),
        final(store)@ == old(store)@.apply_all(ops@),
{
    let ghost s0 = store@;
    let n = ops.len();
    let mut i: usize = 0;
    proof {
        assert(ops@.take(0) =~= Seq::<StoreOp>::empty());
    }
    while i < n
        invariant
            i <= n,
            n == ops@.len(),
            store.inv(),
            store@ == s0.apply_all(ops@.take(i as int)),
        decreases n - i,
    {
        store.apply_op(ops[i]);
        proof {
            lemma_apply_all_snoc(s0, ops@.take(i as int), ops@[i as int]);
            assert(ops@.take(i + 1) =~= ops@.take(i as int).push(ops@[i as int]));
        }
        i += 1;
    }
    proof {
        assert(ops@.take(n as int) =~= ops@);
    }
}

} // verus!
