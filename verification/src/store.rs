//! A store: one named mutable string value plus its subscriber set.
//!
//! The value and the subscriber set are independent pieces of state: reading
//! or replacing the value never touches the subscriptions, and subscription
//! changes never touch the value. The dispatcher task is the single writer
//! that drives both.

use vstd::prelude::*;

use crate::unique::Unique;

verus! {

/// The abstract state of a store: its current value and the identifiers of
/// the connections subscribed to it.
pub ghost struct StoreModel {
    pub value: Seq<char>,
    pub subs: Set<usize>,
}

/// A named store's state: the current value and the subscriber set.
pub struct StoreInner {
    data: String,
    subscribers: Unique,
}

impl View for StoreInner {
    type V = StoreModel;

    closed spec fn view(&self) -> StoreModel {
        StoreModel { value: self.data@, subs: self.subscribers@ }
    }
}

impl StoreInner {
    pub closed spec fn wf(self) -> bool {
        self.subscribers.wf()
    }

    /// A fresh store holding the given value, with no subscribers.
    pub fn new(initial: String) -> (r: StoreInner)
        ensures
            r.wf(),
            r@.value == initial@,
            r@.subs == Set::<usize>::empty(),
    {
        StoreInner { data: initial, subscribers: Unique::new() }
    }

    /// The current value.
    pub fn get(&self) -> (r: String)
        ensures
            r@ == self@.value,
    {
        self.data.clone()
    }

    /// Replaces the value atomically: last writer wins, no merging.
    pub fn set(&mut self, value: String)
        requires
            old(self).wf(),
        ensures
            final(self).wf(),
            final(self)@.value == value@,
            final(self)@.subs == old(self)@.subs,
    {
        self.data = value;
    }

    /// Adds a subscriber; subscribing twice is the same as subscribing once.
    pub fn subscribe(&mut self, s: usize)
        requires
            old(self).wf(),
        ensures
            final(self).wf(),
            final(self)@.value == old(self)@.value,
            final(self)@.subs == old(self)@.subs.insert(s),
    {
        self.subscribers.insert(s);
    }

    /// Removes a subscriber; removing one that is not subscribed is a no-op.
    pub fn unsubscribe(&mut self, s: &usize)
        requires
            old(self).wf(),
        ensures
            final(self).wf(),
            final(self)@.value == old(self)@.value,
            final(self)@.subs == old(self)@.subs.remove(*s),
    {
        self.subscribers.remove(s);
    }

    /// Removes every identifier in the list from the subscriber set, used to
    /// prune connections that a fan-out failed to reach.
    pub fn unsubscribe_many(&mut self, ids: &Vec<usize>)
        requires
            old(self).wf(),
        ensures
            final(self).wf(),
            final(self)@.value == old(self)@.value,
            final(self)@.subs == old(self)@.subs.difference(ids@.to_set()),
    {
        if ids.is_empty() {
            proof {
                assert(self@.subs =~= self@.subs.difference(ids@.to_set()));
            }
            return;
        }
        let ghost orig = self@;
        let n = ids.len();
        let mut i: usize = 0;
        while i < n
            invariant
                i <= n,
                n == ids@.len(),
                self.wf(),
                self@.value == orig.value,
                forall|id: usize| self@.subs.contains(id)
                    <==> orig.subs.contains(id) && !ids@.take(i as int).contains(id),
            decreases n - i,
        {
            let ghost done = ids@.take(i as int);
            proof {
                // Pin the invariant's statement to this iteration's prefix,
                // so the step proof below can connect to it.
                assert(forall|id: usize| self@.subs.contains(id)
                    <==> orig.subs.contains(id) && !done.contains(id));
            }
            self.subscribers.remove(&ids[i]);
            i = i + 1;
            proof {
                assert(ids@.take(i as int) =~= done.push(ids@[i - 1]));
                assert forall|id: usize| self@.subs.contains(id)
                    <==> orig.subs.contains(id)
                        && !ids@.take(i as int).contains(id) by {
                    vstd::seq_lib::lemma_seq_contains_after_push(done, ids@[i - 1], id);
                }
            }
        }
        proof {
            assert(ids@.take(n as int) =~= ids@);
            assert(forall|id: usize| self@.subs.contains(id)
                <==> orig.subs.contains(id) && !ids@.contains(id));
            assert(self@.subs =~= orig.subs.difference(ids@.to_set()));
        }
    }

    /// A snapshot of the subscriber set: each subscribed identifier exactly
    /// once, in no promised order.
    pub fn subscibers(&self) -> (r: Vec<usize>)
        requires
            self.wf(),
        ensures
            r@.no_duplicates(),
            forall|id: usize| r@.contains(id) <==> self@.subs.contains(id),
    {
        self.subscribers.get_all()
    }
}

} // verus!
