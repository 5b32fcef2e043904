//! Per-resource-type listeners.
//!
//! A listener watches one resource type. It keeps the counter value of its
//! last evaluation as a watermark — unset before the first evaluation, so
//! that the first evaluation always reports a change and seeds it — and an
//! ordered list of subscriber handles to wake once when the resource's stamp
//! is newer than the watermark. The list is dropped as it is woken: a
//! subscriber that wants to observe a later change re-subscribes.

use crate::store::{Store, StoreView};
use crate::ticks::{spec_newer_than, tick_inc, tick_newer_than};
use vstd::prelude::*;

verus! {

/// A per-resource-type listener record.
pub struct Listener {
    /// The resource-type identifier watched.
    pub resource: u64,
    /// Counter value at the last evaluation, `None` before the first.
    pub watermark: Option<u32>,
    /// Subscriber handles, woken in subscription order.
    pub subscribers: Vec<u64>,
}

/// Mathematical model of a [`Listener`].
#[verifier::ext_equal]
pub struct ListenerView {
    /// The resource-type identifier watched.
    pub resource: u64,
    /// Counter value at the last evaluation, `None` before the first.
    pub watermark: Option<u32>,
    /// Subscriber handles, woken in subscription order.
    pub subscribers: Seq<u64>,
}

impl View for Listener {
    type V = ListenerView;

    open spec fn view(&self) -> ListenerView {
        ListenerView {
            resource: self.resource,
            watermark: self.watermark,
            subscribers: self.subscribers@,
        }
    }
}

impl ListenerView {
    /// The listener is due: it was never evaluated, or its resource exists
    /// and was written after the watermark.
    pub open spec fn due(self, s: StoreView) -> bool {
        match self.watermark {
            None => true,
            Some(w) => s.resources.dom().contains(self.resource) && spec_newer_than(
                s.resources[self.resource].last_changed,
                w,
                s.change_tick,
            ),
        }
    }

    /// The listener after one evaluation against the store `s`: the
    /// watermark is seeded or advanced to the current counter, and the
    /// subscriber list is dropped when it was woken.
    pub open spec fn evaluated(self, s: StoreView) -> ListenerView {
        ListenerView {
            resource: self.resource,
            watermark: Some(s.change_tick),
            subscribers: if self.due(s) {
                Seq::empty()
            } else {
                self.subscribers
            },
        }
    }
}

impl Listener {
    /// A fresh listener for one resource type, never evaluated and with no
    /// subscribers yet.
    pub fn new(resource: u64) -> (l: Listener)
        ensures
            l@ == (ListenerView { resource, watermark: None, subscribers: Seq::<u64>::empty() }),
    {
        Listener { resource, watermark: None, subscribers: Vec::new() }
    }

    /// Evaluate the change predicate against the store, without touching
    /// the listener.
    pub fn due(&self, store: &Store) -> (r: bool)
        requires
            store.inv(),
        ensures
            r == self@.due(store@),
    {
        match self.watermark {
            None => true,
            Some(w) => match store.resource_last_changed(self.resource) {
                Some(stamp) => tick_newer_than(stamp, w, store.read_change_tick()),
                None => false,
            },
        }
    }
}

/// Handles that one evaluation sweep wakes: for each due listener its
/// subscribers in subscription order, listeners in registration order.
pub open spec fn due_notifications(ls: Seq<ListenerView>, s: StoreView) -> Seq<u64>
    decreases ls.len(),
{
    if ls.len() == 0 {
        Seq::empty()
    } else {
        due_notifications(ls.drop_last(), s) + (if ls.last().due(s) {
            ls.last().subscribers
        } else {
            Seq::empty()
        })
    }
}

/// One listener more at the back appends its woken handles at the back.
pub proof fn lemma_due_notifications_snoc(ls: Seq<ListenerView>, l: ListenerView, s: StoreView)
    ensures
        due_notifications(ls.push(l), s) == due_notifications(ls, s) + (if l.due(s) {
            l.subscribers
        } else {
            Seq::<u64>::empty()
        }),
{
    assert(ls.push(l).drop_last() =~= ls);
    assert(ls.push(l).last() == l);
}

/// Index of the first listener watching `resource`, or the length when
/// none does.
pub open spec fn listener_index(ls: Seq<ListenerView>, resource: u64) -> int
    decreases ls.len(),
{
    if ls.len() == 0 {
        0
    } else if ls[0].resource == resource {
        0
    } else {
        1 + listener_index(ls.drop_first(), resource)
    }
}

/// A match right after an unmatched prefix is the first match.
pub proof fn lemma_listener_index_found(ls: Seq<ListenerView>, resource: u64, i: int)
    requires
        0 <= i < ls.len(),
        forall|j: int| 0 <= j < i ==> ls[j].resource != resource,
        ls[i].resource == resource,
    ensures
        listener_index(ls, resource) == i,
    decreases ls.len(),
{
    if i > 0 {
        assert(ls[0].resource != resource);
        let t = ls.drop_first();
        assert(forall|j: int| 0 <= j < i - 1 ==> t[j] == ls[j + 1]);
        assert(t[i - 1] == ls[i]);
        lemma_listener_index_found(t, resource, i - 1);
    }
}

/// With no match anywhere, the index is the length.
pub proof fn lemma_listener_index_missing(ls: Seq<ListenerView>, resource: u64)
    requires
        forall|j: int| 0 <= j < ls.len() ==> ls[j].resource != resource,
    ensures
        listener_index(ls, resource) == ls.len(),
    decreases ls.len(),
{
    if ls.len() > 0 {
        let t = ls.drop_first();
        assert(forall|j: int| 0 <= j < t.len() ==> t[j] == ls[j + 1]);
        lemma_listener_index_missing(t, resource);
    }
}

/// A single intervening write wakes every subscriber exactly once, one tick
/// later, and a tick without an intervening write wakes none.
///
/// After an evaluation at counter `w`, let the write land with stamp equal
/// to the advanced counter (as deferred updates do, since the driver
/// advances the counter before applying them). The next evaluation, at the
/// advanced counter, is due — the notifications are exactly the subscriber
/// handles, each once. An evaluation after one further advance with no
/// further write is not due, whatever handles have re-subscribed.
pub proof fn lemma_single_notification(
    resource: u64,
    subs: Seq<u64>,
    resubs: Seq<u64>,
    s2: StoreView,
    s3: StoreView,
    w: u32,
)
    requires
        s2.change_tick == tick_inc(w),
        s2.resources.dom().contains(resource),
        s2.resources[resource].last_changed == s2.change_tick,
        s3.change_tick == tick_inc(s2.change_tick),
        s3.resources.dom().contains(resource),
        s3.resources[resource].last_changed == s2.resources[resource].last_changed,
    ensures
        (ListenerView { resource, watermark: Some(w), subscribers: subs }).due(s2),
        (ListenerView { resource, watermark: Some(w), subscribers: subs }).evaluated(
            s2,
        ).subscribers == Seq::<u64>::empty(),
        !(ListenerView { resource, watermark: Some(s2.change_tick), subscribers: resubs }).due(s3),
{
    let stamp = s2.resources[resource].last_changed;
    crate::ticks::lemma_younger_is_newer(stamp, w, s2.change_tick);
    crate::ticks::lemma_older_not_newer(s3.resources[resource].last_changed, s2.change_tick, s3.change_tick);
}

} // verus!
