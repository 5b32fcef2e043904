//! World-changed listener registry.
//!
//! Ephemeral "the world changed" callbacks register and unregister in any
//! order, so their keys must stay stable across removals. The registry keeps
//! them in a `slotmap::SlotMap` — a stable-key container whose generational
//! keys survive the removal of other entries — and hands keys out in their
//! 64-bit form. The slot map's behaviour is taken on trust from its
//! documented contract, stated over the [`world_listener_entries`] view.

use slotmap::{DefaultKey, Key, KeyData, SlotMap};
use vstd::prelude::*;

verus! {

/// The stable-key container of the listener registry: a
/// `slotmap::SlotMap` whose generational keys are handed out in their
/// 64-bit form. The container is opaque to the verifier; everything known
/// about it is stated by the wrappers below over the
/// [`world_listener_entries`] view.
#[verifier::external_body]
pub struct ListenerSlots {
    map: SlotMap<DefaultKey, u64>,
}

/// What a listener slot map holds: callback handles, keyed by the 64-bit
/// form (`KeyData::as_ffi`) of their slot keys.
pub uninterp spec fn world_listener_entries(m: ListenerSlots) -> Map<u64, u64>;

/// Most entries a registry accepts; one below the count at which the slot
/// map's insertion would refuse to grow.
pub const MAX_WORLD_LISTENERS: usize = 0xffff_fffe;

/// The contents of a slot map with no live entries.
pub open spec fn no_entries() -> Map<u64, u64> {
    Map::empty()
}

/// Relies on `SlotMap::new`: a new slot map is empty.
#[verifier::external_body]
fn slot_map_new() -> (m: ListenerSlots)
    ensures
        world_listener_entries(m) == no_entries(),
{
    ListenerSlots { map: SlotMap::new() }
}

/// Relies on `SlotMap::insert` and `KeyData::as_ffi`: insertion returns a
/// key distinct from every live key (slot versions make reused slots yield
/// fresh keys), stores the value under it and leaves other entries alone.
/// The 64-bit form of a live key always has the low bit of its version half
/// set, since occupied slot versions are odd. Insertion panics only when
/// the map holds `0xffff_fffe` entries, which the precondition excludes.
#[verifier::external_body]
fn slot_map_insert(m: &mut ListenerSlots, value: u64) -> (key: u64)
    requires
        world_listener_entries(*old(m)).dom().len() < 0xffff_fffe,
    ensures
        !world_listener_entries(*old(m)).dom().contains(key),
        key | 0x1_0000_0000u64 == key,
        world_listener_entries(*final(m)) == world_listener_entries(*old(m)).insert(key, value),
{
    m.map.insert(value).data().as_ffi()
}

/// Relies on `SlotMap::remove` and `KeyData::from_ffi`: removal by a key's
/// 64-bit form removes exactly that entry and returns its value, and a key
/// that is not live is refused with `None`. `from_ffi` sets the low version
/// bit, so a 64-bit value names the same slot as the value with that bit
/// set.
#[verifier::external_body]
fn slot_map_remove(m: &mut ListenerSlots, key: u64) -> (r: Option<u64>)
    ensures
        world_listener_entries(*final(m)) == world_listener_entries(*old(m)).remove(
            key | 0x1_0000_0000u64,
        ),
        r == if world_listener_entries(*old(m)).dom().contains(key | 0x1_0000_0000u64) {
            Some(world_listener_entries(*old(m))[key | 0x1_0000_0000u64])
        } else {
            None::<u64>
        },
{
    m.map.remove(DefaultKey::from(KeyData::from_ffi(key)))
}

/// Relies on `SlotMap::drain` and `KeyData::as_ffi`: draining yields every
/// live entry exactly once and leaves the map empty.
#[verifier::external_body]
fn slot_map_drain(m: &mut ListenerSlots) -> (out: Vec<(u64, u64)>)
    ensures
        world_listener_entries(*final(m)) == no_entries(),
        forall|i: int, j: int| 0 <= i < j < out@.len() ==> out@[i].0 != out@[j].0,
        forall|i: int|
            0 <= i < out@.len() ==> world_listener_entries(*old(m)).contains_pair(
                #[trigger] out@[i].0,
                out@[i].1,
            ),
        forall|k: u64|
            world_listener_entries(*old(m)).dom().contains(k) ==> exists|i: int|
                0 <= i < out@.len() && #[trigger] out@[i].0 == k,
{
    m.map.drain().map(|(k, v)| (k.data().as_ffi(), v)).collect()
}

/// The registry of world-changed listeners: callback handles under stable
/// 64-bit keys. Its view is the map from key to handle.
pub struct WorldListeners {
    map: ListenerSlots,
    count: usize,
}

impl View for WorldListeners {
    type V = Map<u64, u64>;

    closed spec fn view(&self) -> Map<u64, u64> {
        world_listener_entries(self.map)
    }
}

impl WorldListeners {
    /// The registry's bookkeeping matches its contents.
    pub closed spec fn inv(self) -> bool {
        &&& self@.dom().finite()
        &&& self.count == self@.dom().len()
    }

    /// An empty registry.
    pub fn new() -> (r: WorldListeners)
        ensures
            r.inv(),
            r@ == Map::<u64, u64>::empty(),
    {
        WorldListeners { map: slot_map_new(), count: 0 }
    }

    /// Register a callback handle under a fresh stable key. Registration is
    /// refused only when the registry is at capacity.
    pub fn register(&mut self, handle: u64) -> (r: Option<u64>)
        requires
            old(self).inv(),
        ensures
            final(self).inv(),
            match r {
                Some(key) => !old(self)@.dom().contains(key) && (key | 0x1_0000_0000u64) == key
                    && final(self)@ == old(self)@.insert(key, handle),
                None => final(self)@ == old(self)@ && old(self)@.dom().len()
                    >= MAX_WORLD_LISTENERS,
            },
    {
        if self.count < MAX_WORLD_LISTENERS {
            let key = slot_map_insert(&mut self.map, handle);
            self.count = self.count + 1;
            Some(key)
        } else {
            None
        }
    }

    /// Remove the entry under `key`, returning its handle; a key that is
    /// not registered (any longer) is tolerated and answered with `None`.
    pub fn unregister(&mut self, key: u64) -> (r: Option<u64>)
        requires
            old(self).inv(),
        ensures
            final(self).inv(),
            final(self)@ == old(self)@.remove(key | 0x1_0000_0000u64),
            r == if old(self)@.dom().contains(key | 0x1_0000_0000u64) {
                Some(old(self)@[key | 0x1_0000_0000u64])
            } else {
                None::<u64>
            },
    {
        let r = slot_map_remove(&mut self.map, key);
        if r.is_some() {
            self.count = self.count - 1;
        }
        r
    }

    /// Take every registered entry, leaving the registry empty. The result
    /// lists each (key, handle) entry exactly once.
    pub fn drain(&mut self) -> (out: Vec<(u64, u64)>)
        requires
            old(self).inv(),
        ensures
            final(self).inv(),
            final(self)@ == Map::<u64, u64>::empty(),
            forall|i: int, j: int| 0 <= i < j < out@.len() ==> out@[i].0 != out@[j].0,
            forall|i: int|
                0 <= i < out@.len() ==> old(self)@.contains_pair(#[trigger] out@[i].0, out@[i].1),
            forall|k: u64|
                old(self)@.dom().contains(k) ==> exists|i: int|
                    0 <= i < out@.len() && #[trigger] out@[i].0 == k,
    {
        let out = slot_map_drain(&mut self.map);
        self.count = 0;
        out
    }
}

} // verus!
