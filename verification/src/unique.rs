//! The slot-indexed subscriber set.
//!
//! `Unique` tracks which connection identifiers are subscribed to a store.
//! It supports O(1) insert, O(1) remove and a linear snapshot: a dense array
//! of optional slots holds the members, a free list keeps the indices of
//! cleared slots for reuse, and a hash map from identifier to slot index
//! makes membership tests and removal constant-time.

use vstd::prelude::*;

verus! {

/// The identifier-to-slot-index lookup table, backed by a hash map.
#[verifier::external_body]
pub struct SlotMap {
    map: hashbrown::HashMap<usize, usize>,
}

/// The entries the slot map currently holds, as a mathematical map from
/// connection identifier to slot index.
pub uninterp spec fn slot_map_of(m: SlotMap) -> Map<usize, usize>;

/// Relies on hashbrown::HashMap::new: a freshly created map holds nothing.
#[verifier::external_body]
fn slot_map_new() -> (r: SlotMap)
    ensures
        forall|k: usize| !slot_map_of(r).dom().contains(k),
{
    SlotMap { map: hashbrown::HashMap::new() }
}

/// Relies on hashbrown::HashMap::contains_key: whether the key is present.
#[verifier::external_body]
fn slot_map_contains(m: &SlotMap, key: usize) -> (r: bool)
    ensures
        r == slot_map_of(*m).dom().contains(key),
{
    m.map.contains_key(&key)
}

/// Relies on hashbrown::HashMap::insert: the key is now mapped to this
/// value, and every other key keeps its old entry.
#[verifier::external_body]
fn slot_map_insert(m: &mut SlotMap, key: usize, index: usize)
    ensures
        slot_map_of(*final(m)) == slot_map_of(*old(m)).insert(key, index),
{
    m.map.insert(key, index);
}

/// Relies on hashbrown::HashMap::remove: the key is no longer present, every
/// other key keeps its entry, and the removed value comes back if there was
/// one.
#[verifier::external_body]
fn slot_map_remove(m: &mut SlotMap, key: usize) -> (r: Option<usize>)
    ensures
        slot_map_of(*final(m)) == slot_map_of(*old(m)).remove(key),
        r == (if slot_map_of(*old(m)).dom().contains(key) {
            Some(slot_map_of(*old(m))[key])
        } else {
            Option::<usize>::None
        }),
{
    m.map.remove(&key)
}

/// A set of connection identifiers with O(1) insert and remove and a linear
/// snapshot. Its abstract value is the set of identifiers present.
pub struct Unique {
    set: SlotMap,
    all: Vec<Option<usize>>,
    available: Vec<usize>,
}

impl View for Unique {
    type V = Set<usize>;

    closed spec fn view(&self) -> Set<usize> {
        slot_map_of(self.set).dom()
    }
}

impl Unique {
    /// The structural invariant: the lookup map, the slot array and the free
    /// list agree with one another.
    pub closed spec fn wf(self) -> bool {
        let m = slot_map_of(self.set);
        &&& forall|id: usize| #[trigger] m.dom().contains(id)
            ==> m[id] < self.all@.len() && self.all@[m[id] as int] == Some(id)
        &&& forall|i: int| 0 <= i < self.all@.len()
            ==> ((#[trigger] self.all@[i]) matches Some(id)
                ==> m.dom().contains(id) && m[id] == i)
        &&& forall|j: int| 0 <= j < self.available@.len()
            ==> (#[trigger] self.available@[j]) < self.all@.len()
                && self.all@[self.available@[j] as int] is None
        &&& forall|j1: int, j2: int|
            0 <= j1 < j2 < self.available@.len()
                ==> #[trigger] self.available@[j1] != #[trigger] self.available@[j2]
    }

    pub fn new() -> (r: Unique)
        ensures
            r.wf(),
            r@ == Set::<usize>::empty(),
    {
        let r = Unique { set: slot_map_new(), all: Vec::new(), available: Vec::new() };
        proof {
            assert(r@ =~= Set::<usize>::empty());
        }
        r
    }

    /// Adds an identifier; doing so twice is the same as doing so once.
    pub fn insert(&mut self, value: usize)
        requires
            old(self).wf(),
        ensures
            final(self).wf(),
            final(self)@ == old(self)@.insert(value),
    {
        if slot_map_contains(&self.set, value) {
            proof {
                assert(self@.insert(value) =~= self@);
            }
            return;
        }
        match self.available.pop() {
            Some(index) => {
                slot_map_insert(&mut self.set, value, index);
                self.all[index] = Some(value);
                proof {
                    assert(final(self)@ =~= old(self)@.insert(value));
                }
            },
            None => {
                let index = self.all.len();
                slot_map_insert(&mut self.set, value, index);
                self.all.push(Some(value));
                proof {
                    assert(final(self)@ =~= old(self)@.insert(value));
                }
            },
        }
    }

    /// Drops an identifier; absent identifiers are left alone.
    pub fn remove(&mut self, value: &usize)
        requires
            old(self).wf(),
        ensures
            final(self).wf(),
            final(self)@ == old(self)@.remove(*value),
    {
        match slot_map_remove(&mut self.set, *value) {
            Some(index) => {
                self.available.push(index);
                self.all[index] = None;
                proof {
                    assert(final(self)@ =~= old(self)@.remove(*value));
                }
            },
            None => {
                proof {
                    assert(self@.remove(*value) =~= self@);
                }
            },
        }
    }

    /// Whether an identifier is currently present.
    pub fn contains(&self, value: usize) -> (r: bool)
        ensures
            r == self@.contains(value),
    {
        slot_map_contains(&self.set, value)
    }

    /// A snapshot of the members: every present identifier exactly once, in
    /// no promised order.
    pub fn get_all(&self) -> (r: Vec<usize>)
        requires
            self.wf(),
        ensures
            r@.no_duplicates(),
            forall|id: usize| r@.contains(id) <==> self@.contains(id),
    {
        let ghost m = slot_map_of(self.set);
        let mut out: Vec<usize> = Vec::new();
        let n = self.all.len();
        for i in 0..n
            invariant
                n == self.all@.len(),
                self.wf(),
                m == slot_map_of(self.set),
                out@.no_duplicates(),
                forall|id: usize| out@.contains(id)
                    <==> m.dom().contains(id) && m[id] < i,
        {
            if let Some(v) = self.all[i] {
                proof {
                    assert(m.dom().contains(v) && m[v] == i);
                    assert(!out@.contains(v));
                }
                let ghost pre = out@;
                out.push(v);
                proof {
                    broadcast use vstd::seq_lib::lemma_seq_contains_after_push;
                    assert forall|a: int, b: int| 0 <= a < b < out@.len()
                        implies out@[a] != out@[b] by {
                        if b == pre.len() {
                            assert(pre.contains(pre[a]));
                        }
                    }
                }
            }
        }
        out
    }
}

/// One step of an interleaving of insert and remove calls on a `Unique`.
#[derive(Clone, Copy)]
pub enum SetOp {
    Insert(usize),
    Remove(usize),
}

/// The set of identifiers with a net "present" state after a sequence of
/// insert and remove steps.
pub open spec fn net_set(ops: Seq<SetOp>) -> Set<usize>
    decreases ops.len(),
{
    if ops.len() == 0 {
        Set::empty()
    } else {
        match ops.last() {
            SetOp::Insert(v) => net_set(ops.drop_last()).insert(v),
            SetOp::Remove(v) => net_set(ops.drop_last()).remove(v),
        }
    }
}

/// Law: for every interleaving of inserts and removes on a fresh `Unique`,
/// the snapshot afterwards holds exactly the identifiers whose net state is
/// "present", each exactly once.
pub fn replay_snapshot(ops: &Vec<SetOp>) -> (r: Vec<usize>)
    ensures
        r@.no_duplicates(),
        forall|id: usize| r@.contains(id) <==> net_set(ops@).contains(id),
{
    let mut u = Unique::new();
    let n = ops.len();
    for i in 0..n
        invariant
            n == ops@.len(),
            u.wf(),
            u@ == net_set(ops@.take(i as int)),
    {
        let ghost done = ops@.take(i as int);
        match ops[i] {
            SetOp::Insert(v) => u.insert(v),
            SetOp::Remove(v) => u.remove(&v),
        }
        proof {
            assert(ops@.take(i + 1).drop_last() =~= done);
            assert(ops@.take(i + 1).last() == ops@[i as int]);
        }
    }
    proof {
        assert(ops@.take(n as int) =~= ops@);
    }
    u.get_all()
}

} // verus!
