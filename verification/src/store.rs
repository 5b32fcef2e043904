//! The modelled state store ("the world").
//!
//! The engine synchronizes against an external store that offers singleton
//! resources with a last-modified tick, a global change counter, and
//! entities that hold attached data and parent links. This module holds that
//! store as plain values, so that every rule the engine relies on — tick
//! stamping, upserts, cascading removal — is stated and proved here.
//!
//! The mathematical model of a store is a [`StoreView`]: two maps, the
//! counter and the next fresh entity identifier.

use crate::assoc::{
    assoc_find, assoc_index_of, assoc_map, assoc_upsert, distinct_keys, key_in,
    lemma_assoc_map_dom, lemma_assoc_map_index, lemma_assoc_map_len, lemma_assoc_map_push,
    lemma_assoc_map_update, lemma_sorted_distinct, sorted_keys,
};
use crate::ticks::tick_inc;
use vstd::prelude::*;

verus! {

/// What a resource carries: its value and the counter value at which it was
/// last written.
#[derive(Clone, Copy, Debug)]
pub struct ResData {
    /// The resource's value.
    pub value: u64,
    /// Stamp of the last write.
    pub last_changed: u32,
}

/// What an entity carries: its attached data and its parent link.
#[derive(Clone, Copy, Debug)]
pub struct EntData {
    /// The attached data.
    pub value: u64,
    /// The parent entity, if the entity was registered as a child.
    pub parent: Option<u64>,
}

/// Mathematical model of a [`Store`].
#[verifier::ext_equal]
pub struct StoreView {
    /// Resources by resource-type identifier.
    pub resources: Map<u64, ResData>,
    /// Entities by identifier.
    pub entities: Map<u64, EntData>,
    /// The global change counter.
    pub change_tick: u32,
    /// The identifier the next spawned entity will get.
    pub next_entity: u64,
}

impl StoreView {
    /// Entity `id` is `root` itself or descends from it through parent
    /// links. Parents always carry smaller identifiers than their children,
    /// which bounds the recursion.
    pub open spec fn desc_of(self, root: u64, id: u64) -> bool
        decreases id,
    {
        id == root || (self.entities.dom().contains(id) && match self.entities[id].parent {
            Some(p) => p < id && self.desc_of(root, p),
            None => false,
        })
    }

    /// Well-formedness: identifiers stay below the fresh counter, and every
    /// parent link points to a present entity with a smaller identifier.
    pub open spec fn wf(self) -> bool {
        &&& forall|id: u64| #[trigger]
            self.entities.dom().contains(id) ==> id < self.next_entity
        &&& forall|id: u64| #[trigger]
            self.entities.dom().contains(id) ==> match self.entities[id].parent {
                Some(p) => p < id && self.entities.dom().contains(p),
                None => true,
            }
    }

    /// The store after the global change counter advances.
    pub open spec fn with_tick_advanced(self) -> StoreView {
        StoreView { change_tick: tick_inc(self.change_tick), ..self }
    }

    /// The store after `root` and all its descendants are removed.
    pub open spec fn despawned(self, root: u64) -> StoreView {
        StoreView {
            entities: self.entities.remove_keys(Set::new(|id: u64| self.desc_of(root, id))),
            ..self
        }
    }

    /// Both entities are present and the parent was created first, so a link
    /// from `child` up to `parent` may be registered.
    pub open spec fn can_link(self, parent: u64, child: u64) -> bool {
        &&& self.entities.dom().contains(parent)
        &&& self.entities.dom().contains(child)
        &&& parent < child
    }
}

/// One of the first `i` pairs carries the key `x`.
spec fn key_in_prefix(s: Seq<(u64, EntData)>, i: int, x: u64) -> bool {
    exists|j: int| 0 <= j < i && s[j].0 == x
}

/// The pair `p` occurs among the first `i` pairs.
spec fn pair_in_prefix(s: Seq<(u64, EntData)>, i: int, p: (u64, EntData)) -> bool {
    exists|j: int| 0 <= j < i && s[j] == p
}

/// Membership scan over a plain vector of identifiers.
fn id_vec_contains(v: &Vec<u64>, x: u64) -> (r: bool)
    ensures
        r == v@.contains(x),
{
    let n = v.len();
    let mut i: usize = 0;
    while i < n
        invariant
            n == v@.len(),
            forall|j: int| 0 <= j < i ==> v@[j] != x,
        decreases n - i,
    {
        if v[i] == x {
            return true;
        }
        i += 1;
    }
    false
}

/// The modelled store: resources with change stamps, entities with parent
/// links, the global change counter and the fresh-entity counter.
pub struct Store {
    resources: Vec<(u64, ResData)>,
    entities: Vec<(u64, EntData)>,
    change_tick: u32,
    next_entity: u64,
}

impl View for Store {
    type V = StoreView;

    closed spec fn view(&self) -> StoreView {
        StoreView {
            resources: assoc_map(self.resources@),
            entities: assoc_map(self.entities@),
            change_tick: self.change_tick,
            next_entity: self.next_entity,
        }
    }
}

impl Store {
    /// Representation invariant: distinct resource keys, entity keys in
    /// creation order, and a well-formed view.
    pub closed spec fn inv(self) -> bool {
        &&& distinct_keys(self.resources@)
        &&& sorted_keys(self.entities@)
        &&& self@.wf()
    }

    /// A store that satisfies its representation invariant has a
    /// well-formed view.
    pub proof fn lemma_inv_wf(self)
        requires
            self.inv(),
        ensures
            self@.wf(),
    {
    }

    /// An empty store.
    pub fn new() -> (s: Store)
        ensures
            s.inv(),
            s@.resources == Map::<u64, ResData>::empty(),
            s@.entities == Map::<u64, EntData>::empty(),
            s@.change_tick == 0,
            s@.next_entity == 0,
    {
        Store { resources: Vec::new(), entities: Vec::new(), change_tick: 0, next_entity: 0 }
    }

    /// Current value of the global change counter.
    pub fn read_change_tick(&self) -> (t: u32)
        ensures
            t == self@.change_tick,
    {
        self.change_tick
    }

    /// Advance the global change counter by one, wrapping around.
    pub fn increment_change_tick(&mut self)
        requires
            old(self).inv(),
        ensures
            final(self).inv(),
            final(self)@ == old(self)@.with_tick_advanced(),
    {
        if self.change_tick == 0xffff_ffff {
            self.change_tick = 0;
        } else {
            self.change_tick = self.change_tick + 1;
        }
    }

    /// Write the resource `id`, stamping it with the current counter value.
    /// Creates the resource if it does not exist yet.
    pub fn insert_resource(&mut self, id: u64, value: u64)
        requires
            old(self).inv(),
        ensures
            final(self).inv(),
            final(self)@ == (StoreView {
                resources: old(self)@.resources.insert(
                    id,
                    ResData { value, last_changed: old(self)@.change_tick },
                ),
                ..old(self)@
            }),
    {
        let stamp = self.change_tick;
        assoc_upsert(&mut self.resources, id, ResData { value, last_changed: stamp });
    }

    /// The value of resource `id`, if it exists.
    pub fn get_resource(&self, id: u64) -> (r: Option<u64>)
        requires
            self.inv(),
        ensures
            r == if self@.resources.dom().contains(id) {
                Some(self@.resources[id].value)
            } else {
                None::<u64>
            },
    {
        match assoc_find(&self.resources, id) {
            Some(d) => Some(d.value),
            None => None,
        }
    }

    /// The stamp of the last write to resource `id`, if it exists.
    pub fn resource_last_changed(&self, id: u64) -> (r: Option<u32>)
        requires
            self.inv(),
        ensures
            r == if self@.resources.dom().contains(id) {
                Some(self@.resources[id].last_changed)
            } else {
                None::<u32>
            },
    {
        match assoc_find(&self.resources, id) {
            Some(d) => Some(d.last_changed),
            None => None,
        }
    }

    /// Create a fresh entity carrying `value`, with no parent.
    pub fn spawn(&mut self, value: u64) -> (id: u64)
        requires
            old(self).inv(),
            old(self)@.next_entity < u64::MAX,
        ensures
            final(self).inv(),
            id == old(self)@.next_entity,
            !old(self)@.entities.dom().contains(id),
            final(self)@ == (StoreView {
                entities: old(self)@.entities.insert(id, EntData { value, parent: None }),
                next_entity: (id + 1) as u64,
                ..old(self)@
            }),
    {
        let id = self.next_entity;
        proof {
            lemma_sorted_distinct(self.entities@);
            lemma_assoc_map_dom(self.entities@);
            assert(!key_in(self.entities@, id)) by {
                if key_in(self.entities@, id) {
                    assert(assoc_map(self.entities@).dom().contains(id));
                }
            }
            lemma_assoc_map_push(self.entities@, id, EntData { value, parent: None });
            assert forall|j: int| 0 <= j < self.entities@.len() implies self.entities@[j].0
                < id by {
                lemma_assoc_map_index(self.entities@, j);
            }
        }
        self.entities.push((id, EntData { value, parent: None }));
        self.next_entity = id + 1;
        proof {
            let s = self.entities@;
            assert(sorted_keys(s)) by {
                assert(forall|i: int, j: int|
                    0 <= i < j < s.len() && j < s.len() - 1 ==> s[i].0 < s[j].0);
            }
        }
        id
    }

    /// Whether entity `id` exists.
    pub fn contains_entity(&self, id: u64) -> (r: bool)
        requires
            self.inv(),
        ensures
            r == self@.entities.dom().contains(id),
    {
        proof {
            lemma_sorted_distinct(self.entities@);
        }
        assoc_index_of(&self.entities, id).is_some()
    }

    /// The data attached to entity `id`, if it exists.
    pub fn entity_value(&self, id: u64) -> (r: Option<u64>)
        requires
            self.inv(),
        ensures
            r == if self@.entities.dom().contains(id) {
                Some(self@.entities[id].value)
            } else {
                None::<u64>
            },
    {
        proof {
            lemma_sorted_distinct(self.entities@);
        }
        match assoc_find(&self.entities, id) {
            Some(d) => Some(d.value),
            None => None,
        }
    }

    /// The parent of entity `id`: `None` when the entity is absent or was
    /// never registered as a child.
    pub fn entity_parent(&self, id: u64) -> (r: Option<u64>)
        requires
            self.inv(),
        ensures
            r == if self@.entities.dom().contains(id) {
                self@.entities[id].parent
            } else {
                None::<u64>
            },
    {
        proof {
            lemma_sorted_distinct(self.entities@);
        }
        match assoc_find(&self.entities, id) {
            Some(d) => d.parent,
            None => None,
        }
    }

    /// How many entities exist.
    pub fn entity_count(&self) -> (n: usize)
        requires
            self.inv(),
        ensures
            n == self@.entities.dom().len(),
    {
        proof {
            lemma_sorted_distinct(self.entities@);
            lemma_assoc_map_len(self.entities@);
        }
        self.entities.len()
    }

    /// Replace the data attached to entity `id`, keeping its parent link.
    /// Reports whether the entity existed; an absent entity is left alone.
    pub fn insert_on(&mut self, id: u64, value: u64) -> (ok: bool)
        requires
            old(self).inv(),
        ensures
            final(self).inv(),
            ok == old(self)@.entities.dom().contains(id),
            final(self)@ == if ok {
                StoreView {
                    entities: old(self)@.entities.insert(
                        id,
                        EntData { value, parent: old(self)@.entities[id].parent },
                    ),
                    ..old(self)@
                }
            } else {
                old(self)@
            },
    {
        proof {
            lemma_sorted_distinct(self.entities@);
        }
        match assoc_index_of(&self.entities, id) {
            Some(i) => {
                let parent = self.entities[i].1.parent;
                proof {
                    lemma_assoc_map_update(self.entities@, i as int, EntData { value, parent });
                    lemma_assoc_map_index(self.entities@, i as int);
                }
                self.entities[i] = (id, EntData { value, parent });
                proof {
                    assert(sorted_keys(self.entities@));
                    assert(self@.entities.dom() =~= old(self)@.entities.dom());
                }
                true
            },
            None => false,
        }
    }

    /// Register entity `child` as a child of `parent`. Succeeds exactly when
    /// both exist and the parent was created first; otherwise the store is
    /// left alone.
    pub fn add_child(&mut self, parent: u64, child: u64) -> (ok: bool)
        requires
            old(self).inv(),
        ensures
            final(self).inv(),
            ok == old(self)@.can_link(parent, child),
            final(self)@ == if ok {
                StoreView {
                    entities: old(self)@.entities.insert(
                        child,
                        EntData { value: old(self)@.entities[child].value, parent: Some(parent) },
                    ),
                    ..old(self)@
                }
            } else {
                old(self)@
            },
    {
        proof {
            lemma_sorted_distinct(self.entities@);
        }
        if parent >= child {
            return false;
        }
        if !self.contains_entity(parent) {
            return false;
        }
        match assoc_index_of(&self.entities, child) {
            Some(i) => {
                let value = self.entities[i].1.value;
                proof {
                    lemma_assoc_map_update(
                        self.entities@,
                        i as int,
                        EntData { value, parent: Some(parent) },
                    );
                    lemma_assoc_map_index(self.entities@, i as int);
                }
                self.entities[i] = (child, EntData { value, parent: Some(parent) });
                proof {
                    assert(sorted_keys(self.entities@));
                    assert(self@.entities.dom() =~= old(self)@.entities.dom());
                }
                true
            },
            None => false,
        }
    }

    /// Remove entity `root` together with every entity that descends from
    /// it. Removal is idempotent: an absent `root` leaves the store alone
    /// (its descendants are gone with it, since parent links always point to
    /// present entities). Reports whether `root` existed.
    pub fn despawn(&mut self, root: u64) -> (removed: bool)
        requires
            old(self).inv(),
        ensures
            final(self).inv(),
            removed == old(self)@.entities.dom().contains(root),
            final(self)@ == old(self)@.despawned(root),
    {
        proof {
            lemma_sorted_distinct(self.entities@);
            lemma_assoc_map_dom(self.entities@);
        }
        let removed = self.contains_entity(root);
        let ghost v0 = self@;
        let ghost s = self.entities@;
        let n = self.entities.len();
        let mut kept: Vec<(u64, EntData)> = Vec::new();
        let mut gone: Vec<u64> = Vec::new();
        gone.push(root);
        proof {
            assert(gone@.len() == 1 && gone@[0] == root);
            assert forall|x: u64| #[trigger] gone@.contains(x) implies x == root by {
                let j = choose|j: int| 0 <= j < gone@.len() && gone@[j] == x;
            }
            assert(gone@.contains(root));
        }
        let mut i: usize = 0;
        while i < n
            invariant
                i <= n,
                n == s.len(),
                s == self.entities@,
                v0 == self@,
                sorted_keys(s),
                distinct_keys(s),
                v0.wf(),
                v0.entities == assoc_map(s),
                forall|x: u64| #[trigger]
                    gone@.contains(x) <==> (x == root || (v0.desc_of(root, x) && key_in_prefix(
                        s,
                        i as int,
                        x,
                    ))),
                forall|jj: int|
                    0 <= jj < kept@.len() ==> pair_in_prefix(s, i as int, #[trigger] kept@[jj]),
                forall|x: u64| #[trigger]
                    key_in(kept@, x) <==> (key_in_prefix(s, i as int, x) && !v0.desc_of(root, x)),
                sorted_keys(kept@),
            decreases n - i,
        {
            let (k, d) = self.entities[i];
            proof {
                lemma_assoc_map_index(s, i as int);
                assert(v0.entities.dom().contains(k));
                assert(v0.entities[k] == d);
            }
            let mut is_gone = k == root;
            if !is_gone {
                match d.parent {
                    Some(p) => {
                        is_gone = id_vec_contains(&gone, p);
                        proof {
                            assert(p < k && v0.entities.dom().contains(p));
                            lemma_assoc_map_dom(s);
                            assert(key_in(s, p));
                            let j = choose|j: int| 0 <= j < s.len() && s[j].0 == p;
                            assert(j != i);
                            assert(j < i) by {
                                if j > i {
                                    assert(s[i as int].0 < s[j].0);
                                }
                            }
                            assert(key_in_prefix(s, i as int, p));
                            if v0.desc_of(root, p) {
                                assert(gone@.contains(p));
                            }
                            if gone@.contains(p) {
                                assert(p == root || v0.desc_of(root, p));
                                assert(v0.desc_of(root, p));
                            }
                            assert(is_gone == v0.desc_of(root, k));
                        }
                    },
                    None => {
                        proof {
                            assert(!v0.desc_of(root, k));
                        }
                    },
                }
            }
            proof {
                assert(is_gone == v0.desc_of(root, k));
            }
            if is_gone {
                let ghost gone0 = gone@;
                gone.push(k);
                proof {
                    assert(gone@ == gone0.push(k));
                    assert forall|x: u64| #[trigger]
                        gone@.contains(x) implies (x == root || (v0.desc_of(root, x)
                        && key_in_prefix(s, i + 1, x))) by {
                        let j = choose|j: int| 0 <= j < gone@.len() && gone@[j] == x;
                        if j < gone0.len() {
                            assert(gone0.contains(x));
                            if x != root {
                                let jp = choose|jp: int| 0 <= jp < i && s[jp].0 == x;
                                assert(key_in_prefix(s, i + 1, x));
                            }
                        } else {
                            assert(x == k);
                            assert(s[i as int].0 == x);
                        }
                    }
                    assert forall|x: u64|
                        x == root || (v0.desc_of(root, x) && key_in_prefix(
                            s,
                            i + 1,
                            x,
                        )) implies #[trigger] gone@.contains(x) by {
                        if x == root {
                            assert(gone0.contains(x));
                            let jj = choose|jj: int| 0 <= jj < gone0.len() && gone0[jj] == x;
                            assert(gone@[jj] == x);
                        } else {
                            let j = choose|j: int| 0 <= j < i + 1 && s[j].0 == x;
                            if j < i {
                                assert(gone0.contains(x));
                                let jj = choose|jj: int| 0 <= jj < gone0.len() && gone0[jj] == x;
                                assert(gone@[jj] == x);
                            } else {
                                assert(x == k);
                                assert(gone@[gone0.len() as int] == k);
                            }
                        }
                    }
                    assert forall|x: u64| #[trigger]
                        key_in(kept@, x) implies (key_in_prefix(s, i + 1, x) && !v0.desc_of(
                        root,
                        x,
                    )) by {
                        assert(key_in_prefix(s, i as int, x));
                        let jp = choose|jp: int| 0 <= jp < i && s[jp].0 == x;
                    }
                    assert forall|x: u64|
                        key_in_prefix(s, i + 1, x) && !v0.desc_of(root, x) implies #[trigger] key_in(
                        kept@,
                        x,
                    ) by {
                        let j = choose|j: int| 0 <= j < i + 1 && s[j].0 == x;
                        assert(j < i || x == k);
                        assert(key_in_prefix(s, i as int, x));
                    }
                }
            } else {
                let ghost kept0 = kept@;
                proof {
                    assert forall|jj: int| 0 <= jj < kept0.len() implies kept0[jj].0 < k by {
                        let j = choose|j: int| 0 <= j < i && s[j] == kept0[jj];
                        assert(s[j].0 < s[i as int].0);
                    }
                }
                kept.push((k, d));
                proof {
                    assert(kept@ == kept0.push((k, d)));
                    assert forall|jj: int|
                        0 <= jj < kept@.len() implies pair_in_prefix(
                        s,
                        i + 1,
                        #[trigger] kept@[jj],
                    ) by {
                        if jj < kept0.len() {
                            assert(kept@[jj] == kept0[jj]);
                            let j = choose|j: int| 0 <= j < i && s[j] == kept0[jj];
                        } else {
                            assert(kept@[jj] == (k, d));
                            assert(s[i as int] == (k, d));
                        }
                    }
                    assert forall|x: u64| #[trigger]
                        key_in(kept@, x) implies (key_in_prefix(s, i + 1, x) && !v0.desc_of(
                        root,
                        x,
                    )) by {
                        let jj = choose|jj: int| 0 <= jj < kept@.len() && kept@[jj].0 == x;
                        if jj < kept0.len() {
                            assert(key_in(kept0, x));
                            let jp = choose|jp: int| 0 <= jp < i && s[jp].0 == x;
                        } else {
                            assert(x == k);
                            assert(s[i as int].0 == x);
                        }
                    }
                    assert forall|x: u64|
                        key_in_prefix(s, i + 1, x) && !v0.desc_of(root, x) implies #[trigger] key_in(
                        kept@,
                        x,
                    ) by {
                        let j = choose|j: int| 0 <= j < i + 1 && s[j].0 == x;
                        if j < i {
                            assert(key_in_prefix(s, i as int, x));
                            assert(key_in(kept0, x));
                            let jj = choose|jj: int| 0 <= jj < kept0.len() && kept0[jj].0 == x;
                            assert(kept@[jj].0 == x);
                        } else {
                            assert(x == k);
                            assert(kept@[kept0.len() as int].0 == k);
                        }
                    }
                }
            }
            i += 1;
        }
        proof {
            lemma_sorted_distinct(kept@);
            lemma_assoc_map_dom(kept@);
            lemma_assoc_map_dom(s);
            let target = v0.despawned(root);
            assert forall|x: u64| #[trigger]
                assoc_map(kept@).dom().contains(x) implies target.entities.dom().contains(x)
                && assoc_map(kept@)[x] == target.entities[x] by {
                assert(key_in(kept@, x));
                let jj = choose|jj: int| 0 <= jj < kept@.len() && kept@[jj].0 == x;
                lemma_assoc_map_index(kept@, jj);
                let j = choose|j: int| 0 <= j < n && s[j] == kept@[jj];
                lemma_assoc_map_index(s, j);
                assert(v0.entities.dom().contains(x) && !v0.desc_of(root, x));
                assert(assoc_map(kept@)[x] == kept@[jj].1);
                assert(v0.entities[x] == s[j].1);
            }
            assert forall|x: u64| #[trigger]
                target.entities.dom().contains(x) implies assoc_map(kept@).dom().contains(x) by {
                assert(v0.entities.dom().contains(x) && !v0.desc_of(root, x));
                assert(assoc_map(s).dom().contains(x));
                assert(key_in(s, x));
                let j = choose|j: int| 0 <= j < s.len() && s[j].0 == x;
                assert(key_in_prefix(s, n as int, x));
                assert(key_in(kept@, x));
            }
            assert(assoc_map(kept@) =~= target.entities);
        }
        self.entities = kept;
        proof {
            let target = v0.despawned(root);
            assert(self@.entities == target.entities);
            assert(self@ =~= target);
            lemma_despawned_wf(v0, root);
            assert(self@.wf());
        }
        removed
    }
}

/// Removing a subtree keeps the store well-formed: surviving entities keep
/// identifiers below the fresh counter, and their parents survive with
/// them — a parent of a survivor cannot have descended from the removed
/// root, or the survivor would have too.
pub proof fn lemma_despawned_wf(v: StoreView, root: u64)
    requires
        v.wf(),
    ensures
        v.despawned(root).wf(),
{
    let w = v.despawned(root);
    assert forall|id: u64| #[trigger] w.entities.dom().contains(id) implies id < w.next_entity && (
    match w.entities[id].parent {
        Some(p) => p < id && w.entities.dom().contains(p),
        None => true,
    }) by {
        assert(v.entities.dom().contains(id) && !v.desc_of(root, id));
        assert(w.entities[id] == v.entities[id]);
        match v.entities[id].parent {
            Some(p) => {
                assert(p < id && v.entities.dom().contains(p));
                if v.desc_of(root, p) {
                    assert(v.desc_of(root, id));
                }
            },
            None => {},
        }
    }
}

/// Parent linkage is transitive: a descendant of `b` is a descendant of
/// every ancestor `a` of `b`, so registered child edges chain into a tree.
pub proof fn lemma_desc_of_transitive(v: StoreView, a: u64, b: u64, c: u64)
    requires
        v.desc_of(a, b),
        v.desc_of(b, c),
    ensures
        v.desc_of(a, c),
    decreases c,
{
    if c != b {
        match v.entities[c].parent {
            Some(p) => {
                lemma_desc_of_transitive(v, a, b, p);
            },
            None => {},
        }
    }
}

/// Descendancy only shrinks when entities are removed: a chain that exists
/// in a store whose entities form a part of `v`'s also exists in `v`.
proof fn lemma_desc_of_submap(v: StoreView, w: StoreView, root: u64, id: u64)
    requires
        forall|x: u64| #[trigger]
            w.entities.dom().contains(x) ==> v.entities.dom().contains(x) && v.entities[x]
                == w.entities[x],
        w.desc_of(root, id),
    ensures
        v.desc_of(root, id),
    decreases id,
{
    if id != root {
        match w.entities[id].parent {
            Some(p) => {
                lemma_desc_of_submap(v, w, root, p);
            },
            None => {},
        }
    }
}

/// Cascading removal races are harmless: once an ancestor `a` has been
/// removed, removing a descendant `c` of it changes nothing, because `c`
/// and all of `c`'s descendants went with `a`.
pub proof fn lemma_removal_cascade_tolerance(v: StoreView, a: u64, c: u64)
    requires
        v.wf(),
        v.desc_of(a, c),
    ensures
        v.despawned(a).despawned(c) == v.despawned(a),
{
    let w = v.despawned(a);
    assert forall|id: u64| #[trigger] w.entities.dom().contains(id) implies !w.desc_of(
        c,
        id,
    ) by {
        assert(v.entities.dom().contains(id) && !v.desc_of(a, id));
        if w.desc_of(c, id) {
            assert forall|x: u64| #[trigger]
                w.entities.dom().contains(x) implies v.entities.dom().contains(x) && v.entities[x]
                == w.entities[x] by {}
            lemma_desc_of_submap(v, w, c, id);
            lemma_desc_of_transitive(v, a, c, id);
        }
    }
    assert(w.despawned(c).entities =~= w.entities);
    assert(w.despawned(c) =~= w);
}

} // verus!
