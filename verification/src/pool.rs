//! Connection-pool bookkeeping.
//!
//! A pool owns the set of live connections of one namespace. Attaching a
//! connection draws a fresh identifier from the pool's counter and registers
//! it; detaching removes it, so that concurrent senders holding a stale
//! identifier find it absent and no-op instead of reaching a reused slot.
//! The transport itself (sockets, reader tasks, sends) lives outside the
//! library; send loops consult and update this registry through `contains`,
//! `socket_ids` and `remove_socket`.

use vstd::prelude::*;

use crate::socket::{next_id, IdGen};
use crate::unique::Unique;

verus! {

/// The live-connection registry of one namespace's pool. Its abstract value
/// is the set of identifiers of currently attached connections.
pub struct WebSocketPoolInner {
    gen: IdGen,
    sockets: Unique,
}

impl View for WebSocketPoolInner {
    type V = Set<usize>;

    closed spec fn view(&self) -> Set<usize> {
        self.sockets@
    }
}

impl WebSocketPoolInner {
    /// The next identifier the pool will hand out.
    pub closed spec fn spec_counter(self) -> usize {
        self.gen.spec_next()
    }

    /// Every live identifier was handed out earlier by this pool's counter:
    /// it is at least 1 and below the counter's next value.
    pub closed spec fn wf(self) -> bool {
        &&& self.gen.wf()
        &&& self.sockets.wf()
        &&& forall|id: usize| #[trigger] self.sockets@.contains(id)
            ==> 0 < id < self.gen.spec_next()
    }

    /// A fresh pool: no live connections, identifiers starting at 1.
    pub fn new() -> (r: WebSocketPoolInner)
        ensures
            r.wf(),
            r@ == Set::<usize>::empty(),
            r.spec_counter() == 1,
    {
        WebSocketPoolInner { gen: IdGen::new(), sockets: Unique::new() }
    }

    /// Whether another connection can still be attached (the identifier
    /// counter has not been exhausted).
    pub fn can_attach(&self) -> (r: bool)
        requires
            self.wf(),
        ensures
            r == (self.spec_counter() < usize::MAX),
    {
        self.counter_value() < usize::MAX
    }

    fn counter_value(&self) -> (r: usize)
        ensures
            r == self.spec_counter(),
    {
        self.gen.peek()
    }

    /// Attaches a connection: draws a fresh identifier — one no live
    /// connection shares — and registers it as live.
    pub fn listen_to(&mut self) -> (id: usize)
        requires
            old(self).wf(),
            old(self).spec_counter() < usize::MAX,
        ensures
            final(self).wf(),
            id == old(self).spec_counter(),
            !old(self)@.contains(id),
            final(self)@ == old(self)@.insert(id),
            final(self).spec_counter() == id + 1,
    {
        let id = next_id(&mut self.gen);
        self.add_socket(id);
        id
    }

    /// Registers an identifier this pool issued earlier (used when a
    /// connection object built elsewhere is handed back to its pool).
    pub fn add_socket(&mut self, id: usize)
        requires
            old(self).wf(),
            0 < id < old(self).spec_counter(),
        ensures
            final(self).wf(),
            final(self)@ == old(self)@.insert(id),
            final(self).spec_counter() == old(self).spec_counter(),
    {
        self.sockets.insert(id);
    }

    /// Detaches a connection; an identifier that is not live is left alone.
    pub fn remove_socket(&mut self, id: usize)
        requires
            old(self).wf(),
        ensures
            final(self).wf(),
            final(self)@ == old(self)@.remove(id),
            final(self).spec_counter() == old(self).spec_counter(),
    {
        self.sockets.remove(&id);
    }

    /// Whether a connection is currently live.
    pub fn contains(&self, id: usize) -> (r: bool)
        ensures
            r == self@.contains(id),
    {
        self.sockets.contains(id)
    }

    /// A snapshot of the live connections, each identifier exactly once, in
    /// no promised order (used to drive a broadcast to the whole pool).
    pub fn socket_ids(&self) -> (r: Vec<usize>)
        requires
            self.wf(),
        ensures
            r@.no_duplicates(),
            forall|id: usize| r@.contains(id) <==> self@.contains(id),
    {
        self.sockets.get_all()
    }
}

/// One step of a pool's life: a connection attaching, or a connection with a
/// given identifier detaching.
#[derive(Clone, Copy)]
pub enum PoolOp {
    Connect,
    Disconnect(usize),
}

/// Law: over every sequence of connects and disconnects on one pool, the
/// identifiers handed out are pairwise distinct — so no two
/// simultaneously-live connections ever share one — and the live set only
/// ever holds identifiers that were handed out.
pub fn replay_connections(ops: &Vec<PoolOp>) -> (issued: Vec<usize>)
    ensures
        issued@.no_duplicates(),
{
    let mut pool = WebSocketPoolInner::new();
    let mut issued: Vec<usize> = Vec::new();
    let n = ops.len();
    let mut k: usize = 0;
    while k < n
        invariant
            k <= n,
            n == ops@.len(),
            pool.wf(),
            issued@.no_duplicates(),
            forall|j: int| 0 <= j < issued@.len() ==> (#[trigger] issued@[j])
                < pool.spec_counter(),
            forall|id: usize| #[trigger] pool@.contains(id) ==> issued@.contains(id),
        decreases n - k,
    {
        match ops[k] {
            PoolOp::Connect => {
                if pool.can_attach() {
                    let id = pool.listen_to();
                    proof {
                        assert(!issued@.contains(id)) by {
                            if issued@.contains(id) {
                                let j = choose|j: int|
                                    0 <= j < issued@.len() && issued@[j] == id;
                                assert(issued@[j] < id);
                            }
                        }
                    }
                    let ghost pre = issued@;
                    issued.push(id);
                    proof {
                        broadcast use vstd::seq_lib::lemma_seq_contains_after_push;
                        assert forall|a: int, b: int| 0 <= a < b < issued@.len()
                            implies issued@[a] != issued@[b] by {
                            if b == pre.len() {
                                assert(pre.contains(pre[a]));
                            }
                        }
                    }
                }
            },
            PoolOp::Disconnect(id) => {
                pool.remove_socket(id);
            },
        }
        k = k + 1;
    }
    issued
}

} // verus!
