//! The shared runtime context.
//!
//! One context exists per scheduling thread. It owns the listener registry,
//! the per-resource-type listeners, and the queues of deferred updates and
//! structural commands; the driver works through it once per tick. The
//! ambient lookup that hands composition code the live context — and the
//! usage error when none is active — is the host's affair; here the context
//! is an explicit value.
//!
//! Callbacks are carried as plain `u64` handles that the host resolves to
//! the actual closures; the engine decides *which* handles fire and in what
//! order.

use crate::listener::{due_notifications, lemma_due_notifications_snoc, lemma_listener_index_found,
    lemma_listener_index_missing, listener_index, Listener, ListenerView};
use crate::ops::StoreOp;
use crate::registry::{WorldListeners, MAX_WORLD_LISTENERS};
use crate::store::Store;
use vstd::prelude::*;

verus! {

/// Mathematical model of a [`RuntimeContext`].
#[verifier::ext_equal]
pub struct ContextView {
    /// World-changed callback handles by their stable registration key.
    pub listeners: Map<u64, u64>,
    /// Per-resource-type listeners, in registration order.
    pub resource_listeners: Seq<ListenerView>,
    /// Deferred updates, in enqueue order.
    pub updates: Seq<StoreOp>,
    /// Structural commands, in enqueue order.
    pub commands: Seq<StoreOp>,
    /// Whether the reentrancy lock is held (between ticks).
    pub locked: bool,
    /// Whether a tick is in flight (the store handle is bound).
    pub tick_active: bool,
}

/// The shared runtime context: listener registries, deferred-mutation
/// queues, and the tick bookkeeping flags.
pub struct RuntimeContext {
    listeners: WorldListeners,
    resource_listeners: Vec<Listener>,
    updates: Vec<StoreOp>,
    commands: Vec<StoreOp>,
    locked: bool,
    tick_active: bool,
}

impl View for RuntimeContext {
    type V = ContextView;

    closed spec fn view(&self) -> ContextView {
        ContextView {
            listeners: self.listeners@,
            resource_listeners: self.resource_listeners@.map_values(|l: Listener| l@),
            updates: self.updates@,
            commands: self.commands@,
            locked: self.locked,
            tick_active: self.tick_active,
        }
    }
}

impl RuntimeContext {
    /// The registries' bookkeeping holds, and no two listeners watch the
    /// same resource type.
    pub closed spec fn inv(self) -> bool {
        &&& self.listeners.inv()
        &&& forall|i: int, j: int|
            0 <= i < j < self.resource_listeners@.len()
                ==> self.resource_listeners@[i].resource != self.resource_listeners@[j].resource
    }

    /// A fresh context: nothing registered, nothing queued, unlocked, no
    /// tick in flight.
    pub fn new() -> (r: RuntimeContext)
        ensures
            r.inv(),
            r@ == (ContextView {
                listeners: Map::<u64, u64>::empty(),
                resource_listeners: Seq::<ListenerView>::empty(),
                updates: Seq::<StoreOp>::empty(),
                commands: Seq::<StoreOp>::empty(),
                locked: false,
                tick_active: false,
            }),
    {
        let r = RuntimeContext {
            listeners: WorldListeners::new(),
            resource_listeners: Vec::new(),
            updates: Vec::new(),
            commands: Vec::new(),
            locked: false,
            tick_active: false,
        };
        proof {
            assert(r@.resource_listeners =~= Seq::<ListenerView>::empty());
        }
        r
    }

    /// Register a world-changed callback handle, to be fired once on the
    /// next tick. Returns the stable key under which it can be
    /// unregistered; refused only when the registry is at capacity.
    pub fn register_listener(&mut self, handle: u64) -> (r: Option<u64>)
        requires
            old(self).inv(),
        ensures
            final(self).inv(),
            match r {
                Some(key) => !old(self)@.listeners.dom().contains(key) && (key
                    | 0x1_0000_0000u64) == key && final(self)@ == (ContextView {
                    listeners: old(self)@.listeners.insert(key, handle),
                    ..old(self)@
                }),
                None => final(self)@ == old(self)@ && old(self)@.listeners.dom().len()
                    >= MAX_WORLD_LISTENERS,
            },
    {
        self.listeners.register(handle)
    }

    /// Unregister a world-changed callback by its key, returning its
    /// handle. A key that is no longer registered — its listener already
    /// fired and was dropped — is tolerated and answered with `None`.
    pub fn unregister_listener(&mut self, key: u64) -> (r: Option<u64>)
        requires
            old(self).inv(),
        ensures
            final(self).inv(),
            final(self)@ == (ContextView {
                listeners: old(self)@.listeners.remove(key | 0x1_0000_0000u64),
                ..old(self)@
            }),
            r == if old(self)@.listeners.dom().contains(key | 0x1_0000_0000u64) {
                Some(old(self)@.listeners[key | 0x1_0000_0000u64])
            } else {
                None::<u64>
            },
    {
        self.listeners.unregister(key)
    }

    /// Subscribe `handle` to changes of `resource`: it is woken once, on
    /// the next tick whose evaluation finds the resource newer than the
    /// listener's watermark, and then dropped — it must re-subscribe to
    /// observe later changes. A listener for the resource type is created
    /// on first subscription; its first evaluation is unconditionally due.
    pub fn register_resource_listener(&mut self, resource: u64, handle: u64)
        requires
            old(self).inv(),
        ensures
            final(self).inv(),
            ({
                let ls = old(self)@.resource_listeners;
                let i = listener_index(ls, resource);
                final(self)@ == (ContextView {
                    resource_listeners: if i < ls.len() {
                        ls.update(
                            i,
                            ListenerView {
                                resource,
                                watermark: ls[i].watermark,
                                subscribers: ls[i].subscribers.push(handle),
                            },
                        )
                    } else {
                        ls.push(
                            ListenerView { resource, watermark: None, subscribers: seq![handle] },
                        )
                    },
                    ..old(self)@
                })
            }),
    {
        let ghost ls = self@.resource_listeners;
        let n = self.resource_listeners.len();
        let mut i: usize = 0;
        while i < n
            invariant
                i <= n,
                n == self.resource_listeners@.len(),
                *self == *old(self),
                old(self).inv(),
                ls == self@.resource_listeners,
                n == ls.len(),
                forall|j: int| 0 <= j < i ==> self.resource_listeners@[j]@.resource != resource,
            decreases n - i,
        {
            if self.resource_listeners[i].resource == resource {
                proof {
                    assert(forall|j: int| 0 <= j < ls.len() ==> ls[j] == self.resource_listeners@[j]@);
                    lemma_listener_index_found(ls, resource, i as int);
                }
                let l = &mut self.resource_listeners[i];
                l.subscribers.push(handle);
                proof {
                    assert(forall|j: int|
                        0 <= j < self.resource_listeners@.len() ==> self.resource_listeners@[j].resource
                            == old(self).resource_listeners@[j].resource);
                    assert(final(self)@.resource_listeners =~= ls.update(
                        i as int,
                        ListenerView {
                            resource,
                            watermark: ls[i as int].watermark,
                            subscribers: ls[i as int].subscribers.push(handle),
                        },
                    ));
                    assert(final(self)@ =~= (ContextView {
                        resource_listeners: final(self)@.resource_listeners,
                        ..old(self)@
                    }));
                    assert forall|a: int, b: int|
                        0 <= a < b < self.resource_listeners@.len() implies self.resource_listeners@[a].resource
                        != self.resource_listeners@[b].resource by {
                        assert(old(self).resource_listeners@[a].resource != old(
                            self,
                        ).resource_listeners@[b].resource);
                    }
                }
                return;
            }
            i += 1;
        }
        proof {
            assert(forall|j: int| 0 <= j < ls.len() ==> ls[j] == self.resource_listeners@[j]@);
            lemma_listener_index_missing(ls, resource);
        }
        let mut l = Listener::new(resource);
        l.subscribers.push(handle);
        self.resource_listeners.push(l);
        proof {
            assert(l.subscribers@ =~= seq![handle]);
            assert(final(self)@.resource_listeners =~= ls.push(
                ListenerView { resource, watermark: None, subscribers: seq![handle] },
            ));
            assert(final(self)@ =~= (ContextView {
                resource_listeners: final(self)@.resource_listeners,
                ..old(self)@
            }));
        }
    }

    /// Queue a deferred update, to be applied to the store after the
    /// current (or next) recomposition pass, in enqueue order.
    pub fn push_update(&mut self, op: StoreOp)
        requires
            old(self).inv(),
        ensures
            final(self).inv(),
            final(self)@ == (ContextView { updates: old(self)@.updates.push(op), ..old(self)@ }),
    {
        self.updates.push(op);
    }

    /// Queue a structural command, to be applied to the store after the
    /// deferred updates, in enqueue order.
    pub fn push_command(&mut self, op: StoreOp)
        requires
            old(self).inv(),
        ensures
            final(self).inv(),
            final(self)@ == (ContextView { commands: old(self)@.commands.push(op), ..old(self)@ }),
    {
        self.commands.push(op);
    }

    /// Read a resource and watch it in one step, as a node does: the value
    /// read reflects the store as this tick opened, and `handle` is woken
    /// on the next tick that finds the resource newer than the listener's
    /// watermark — for a fresh listener, unconditionally on the next tick,
    /// seeding it.
    pub fn use_resource(&mut self, store: &Store, resource: u64, handle: u64) -> (r: Option<u64>)
        requires
            old(self).inv(),
            store.inv(),
        ensures
            final(self).inv(),
            r == if store@.resources.dom().contains(resource) {
                Some(store@.resources[resource].value)
            } else {
                None::<u64>
            },
            ({
                let ls = old(self)@.resource_listeners;
                let i = listener_index(ls, resource);
                final(self)@ == (ContextView {
                    resource_listeners: if i < ls.len() {
                        ls.update(
                            i,
                            ListenerView {
                                resource,
                                watermark: ls[i].watermark,
                                subscribers: ls[i].subscribers.push(handle),
                            },
                        )
                    } else {
                        ls.push(
                            ListenerView { resource, watermark: None, subscribers: seq![handle] },
                        )
                    },
                    ..old(self)@
                })
            }),
    {
        self.register_resource_listener(resource, handle);
        store.get_resource(resource)
    }

    /// Whether the reentrancy lock is held.
    pub fn locked(&self) -> (r: bool)
        ensures
            r == self@.locked,
    {
        self.locked
    }

    /// Whether a tick is in flight.
    pub fn tick_active(&self) -> (r: bool)
        ensures
            r == self@.tick_active,
    {
        self.tick_active
    }

    /// Set the reentrancy-lock flag.
    pub(crate) fn set_locked(&mut self, v: bool)
        requires
            old(self).inv(),
        ensures
            final(self).inv(),
            final(self)@ == (ContextView { locked: v, ..old(self)@ }),
    {
        self.locked = v;
    }

    /// Set the tick-in-flight flag.
    pub(crate) fn set_tick_active(&mut self, v: bool)
        requires
            old(self).inv(),
        ensures
            final(self).inv(),
            final(self)@ == (ContextView { tick_active: v, ..old(self)@ }),
    {
        self.tick_active = v;
    }

    /// Take all world-changed listeners, leaving none registered.
    pub(crate) fn drain_world_listeners(&mut self) -> (out: Vec<(u64, u64)>)
        requires
            old(self).inv(),
        ensures
            final(self).inv(),
            final(self)@ == (ContextView { listeners: Map::<u64, u64>::empty(), ..old(self)@ }),
            forall|i: int, j: int| 0 <= i < j < out@.len() ==> out@[i].0 != out@[j].0,
            forall|i: int|
                0 <= i < out@.len() ==> old(self)@.listeners.contains_pair(
                    #[trigger] out@[i].0,
                    out@[i].1,
                ),
            forall|k: u64|
                old(self)@.listeners.dom().contains(k) ==> exists|i: int|
                    0 <= i < out@.len() && #[trigger] out@[i].0 == k,
    {
        self.listeners.drain()
    }

    /// Evaluate every resource listener against the store — the driver's
    /// notification step. A due listener's subscriber handles are collected
    /// in order and dropped from the listener; every watermark advances to
    /// the store's current counter value.
    pub(crate) fn sweep_resource_listeners(&mut self, store: &Store) -> (woken: Vec<u64>)
        requires
            old(self).inv(),
            store.inv(),
        ensures
            final(self).inv(),
            woken@ == due_notifications(old(self)@.resource_listeners, store@),
            final(self)@.resource_listeners.len() == old(self)@.resource_listeners.len(),
            forall|i: int|
                0 <= i < old(self)@.resource_listeners.len()
                    ==> final(self)@.resource_listeners[i]
                    == old(self)@.resource_listeners[i].evaluated(store@),
            final(self)@ == (ContextView {
                resource_listeners: final(self)@.resource_listeners,
                ..old(self)@
            }),
    {
        let ghost ls = old(self)@.resource_listeners;
        let ghost sv = store@;
        let tick = store.read_change_tick();
        let n = self.resource_listeners.len();
        let mut woken: Vec<u64> = Vec::new();
        let mut i: usize = 0;
        proof {
            assert(woken@ =~= due_notifications(ls.take(0), sv)) by {
                assert(ls.take(0) =~= Seq::<ListenerView>::empty());
            }
        }
        while i < n
            invariant
                i <= n,
                old(self).inv(),
                store.inv(),
                sv == store@,
                tick == sv.change_tick,
                n == self.resource_listeners@.len(),
                ls.len() == n,
                ls == old(self)@.resource_listeners,
                self.listeners == old(self).listeners,
                self.updates@ == old(self).updates@,
                self.commands@ == old(self).commands@,
                self.locked == old(self).locked,
                self.tick_active == old(self).tick_active,
                forall|j: int|
                    i <= j < n ==> self.resource_listeners@[j] == old(self).resource_listeners@[j],
                forall|j: int|
                    0 <= j < i ==> #[trigger] self.resource_listeners@[j]@ == ls[j].evaluated(sv),
                woken@ == due_notifications(ls.take(i as int), sv),
            decreases n - i,
        {
            proof {
                assert(ls[i as int] == old(self).resource_listeners@[i as int]@);
                assert(self.resource_listeners@[i as int]@ == ls[i as int]);
            }
            let due = self.resource_listeners[i].due(store);
            if due {
                let ghost w0 = woken@;
                let ghost self0 = *self;
                let ghost subs = self.resource_listeners@[i as int].subscribers@;
                let m = self.resource_listeners[i].subscribers.len();
                let mut j: usize = 0;
                while j < m
                    invariant
                        j <= m,
                        i < n,
                        *self == self0,
                        n == self.resource_listeners@.len(),
                        subs == self.resource_listeners@[i as int].subscribers@,
                        m == subs.len(),
                        woken@ == w0 + subs.take(j as int),
                    decreases m - j,
                {
                    let h = self.resource_listeners[i].subscribers[j];
                    woken.push(h);
                    proof {
                        assert(subs.take(j + 1) =~= subs.take(j as int).push(subs[j as int]));
                        assert(woken@ =~= w0 + subs.take(j + 1));
                    }
                    j += 1;
                }
                proof {
                    assert(subs.take(m as int) =~= subs);
                    assert(woken@ == w0 + subs);
                }
            }
            let l = &mut self.resource_listeners[i];
            l.watermark = Some(tick);
            if due {
                l.subscribers.clear();
            }
            proof {
                lemma_due_notifications_snoc(ls.take(i as int), ls[i as int], sv);
                assert(ls.take(i + 1) =~= ls.take(i as int).push(ls[i as int]));
                assert(self.resource_listeners@[i as int]@ =~= ls[i as int].evaluated(sv));
                assert(woken@ =~= due_notifications(ls.take(i + 1), sv));
            }
            i += 1;
        }
        proof {
            assert(ls.take(n as int) =~= ls);
            assert forall|a: int, b: int|
                0 <= a < b < self.resource_listeners@.len() implies self.resource_listeners@[a].resource
                != self.resource_listeners@[b].resource by {
                assert(self.resource_listeners@[a]@.resource == ls[a].resource);
                assert(self.resource_listeners@[b]@.resource == ls[b].resource);
                assert(old(self).resource_listeners@[a].resource != old(
                    self,
                ).resource_listeners@[b].resource);
            }
            assert(final(self)@ =~= (ContextView {
                resource_listeners: final(self)@.resource_listeners,
                ..old(self)@
            }));
        }
        woken
    }

    /// Take the queued deferred updates, leaving the queue empty.
    pub(crate) fn take_updates(&mut self) -> (out: Vec<StoreOp>)
        requires
            old(self).inv(),
        ensures
            final(self).inv(),
            out@ == old(self)@.updates,
            final(self)@ == (ContextView { updates: Seq::<StoreOp>::empty(), ..old(self)@ }),
    {
        let mut out: Vec<StoreOp> = Vec::new();
        core::mem::swap(&mut out, &mut self.updates);
        proof {
            assert(final(self)@ =~= (ContextView {
                updates: Seq::<StoreOp>::empty(),
                ..old(self)@
            }));
        }
        out
    }

    /// Take the queued structural commands, leaving the queue empty.
    pub(crate) fn take_commands(&mut self) -> (out: Vec<StoreOp>)
        requires
            old(self).inv(),
        ensures
            final(self).inv(),
            out@ == old(self)@.commands,
            final(self)@ == (ContextView { commands: Seq::<StoreOp>::empty(), ..old(self)@ }),
    {
        let mut out: Vec<StoreOp> = Vec::new();
        core::mem::swap(&mut out, &mut self.commands);
        proof {
            assert(final(self)@ =~= (ContextView {
                commands: Seq::<StoreOp>::empty(),
                ..old(self)@
            }));
        }
        out
    }
}

} // verus!
