//! A namespace: one isolated broker domain.
//!
//! A namespace owns a write secret, a table of named stores and the
//! connection pool of its clients. A single dispatcher task consumes the
//! namespace's mailbox and applies each client message here through
//! `handle_message`; that serialization is what makes store creation safe
//! without cross-task locking. Sending the resulting notifications is
//! outside work: `handle_message` returns an `Outcome` describing the reply
//! or fan-out to perform, and the caller reports fan-out failures back
//! through `prune_subscribers`.

use vstd::prelude::*;

use crate::messages::{ClientMessage, ServerMessage, TaggedMessage};
use crate::pool::WebSocketPoolInner;
use crate::store::{StoreInner, StoreModel};

verus! {

/// The abstract state of a namespace: its write secret and its stores.
pub ghost struct NamespaceModel {
    pub secret: Seq<char>,
    pub stores: Map<Seq<char>, StoreModel>,
}

/// What the dispatcher asks its caller to send after applying one message:
/// nothing, one direct reply, or a fan-out to a store's subscribers.
pub ghost enum OutcomeModel {
    Silent,
    Reply { to: usize, store: Seq<char>, value: Seq<char> },
    Broadcast { targets: Set<usize>, store: Seq<char>, value: Seq<char> },
}

/// The rejection of a direct write whose key does not match the namespace's
/// write secret.
#[derive(Clone, Copy, Debug, PartialEq, Eq, Structural)]
pub enum WriteError {
    InvalidWriteKey,
}

/// The sends requested by one dispatcher step.
pub enum Outcome {
    /// No send: the message was dropped or only changed local state.
    Silent,
    /// A direct reply to one connection.
    Reply { to: usize, message: ServerMessage },
    /// A fan-out of one message to a snapshot of a store's subscribers.
    Broadcast { targets: Vec<usize>, message: ServerMessage },
}

impl View for Outcome {
    type V = OutcomeModel;

    open spec fn view(&self) -> OutcomeModel {
        match self {
            Outcome::Silent => OutcomeModel::Silent,
            Outcome::Reply { to, message } => match message {
                ServerMessage::Update { store, value } => OutcomeModel::Reply {
                    to: *to,
                    store: store@,
                    value: value@,
                },
            },
            Outcome::Broadcast { targets, message } => match message {
                ServerMessage::Update { store, value } => OutcomeModel::Broadcast {
                    targets: targets@.to_set(),
                    store: store@,
                    value: value@,
                },
            },
        }
    }
}

/// `Subscribe { store, initial }` from a connection: an existing store gains
/// the subscriber and replies with its current value; an absent store is
/// created with the initial value — but only under write capability — and
/// the creator becomes its first subscriber; otherwise the message is
/// dropped.
pub open spec fn spec_subscribe(
    m: NamespaceModel,
    from: usize,
    can_write: bool,
    store: Seq<char>,
    initial: Seq<char>,
) -> (NamespaceModel, OutcomeModel) {
    if m.stores.dom().contains(store) {
        let s = m.stores[store];
        (
            NamespaceModel {
                secret: m.secret,
                stores: m.stores.insert(
                    store,
                    StoreModel { value: s.value, subs: s.subs.insert(from) },
                ),
            },
            OutcomeModel::Reply { to: from, store, value: s.value },
        )
    } else if can_write {
        (
            NamespaceModel {
                secret: m.secret,
                stores: m.stores.insert(
                    store,
                    StoreModel { value: initial, subs: Set::empty().insert(from) },
                ),
            },
            OutcomeModel::Reply { to: from, store, value: initial },
        )
    } else {
        (m, OutcomeModel::Silent)
    }
}

/// `Unsubscribe { store }`: drops the connection from an existing store's
/// subscriber set; an absent store, or a connection that was not subscribed,
/// makes this a no-op. Never replies.
pub open spec fn spec_unsubscribe(m: NamespaceModel, from: usize, store: Seq<char>) -> (
    NamespaceModel,
    OutcomeModel,
) {
    if m.stores.dom().contains(store) {
        let s = m.stores[store];
        (
            NamespaceModel {
                secret: m.secret,
                stores: m.stores.insert(
                    store,
                    StoreModel { value: s.value, subs: s.subs.remove(from) },
                ),
            },
            OutcomeModel::Silent,
        )
    } else {
        (m, OutcomeModel::Silent)
    }
}

/// A write to a store under established write capability: an existing store
/// takes the value and its subscriber snapshot is to be notified; an absent
/// store is created with the value and nothing is sent, there being no
/// subscribers yet.
pub open spec fn spec_set(m: NamespaceModel, store: Seq<char>, value: Seq<char>) -> (
    NamespaceModel,
    OutcomeModel,
) {
    if m.stores.dom().contains(store) {
        let s = m.stores[store];
        (
            NamespaceModel {
                secret: m.secret,
                stores: m.stores.insert(store, StoreModel { value, subs: s.subs }),
            },
            OutcomeModel::Broadcast { targets: s.subs, store, value },
        )
    } else {
        (
            NamespaceModel {
                secret: m.secret,
                stores: m.stores.insert(store, StoreModel { value, subs: Set::empty() }),
            },
            OutcomeModel::Silent,
        )
    }
}

/// `Get { store }`: replies with an existing store's current value and then
/// drops the requester from the store's subscriber set — a one-shot read,
/// not a subscription. An absent store gives no reply.
pub open spec fn spec_get(m: NamespaceModel, from: usize, store: Seq<char>) -> (
    NamespaceModel,
    OutcomeModel,
) {
    if m.stores.dom().contains(store) {
        let s = m.stores[store];
        (
            NamespaceModel {
                secret: m.secret,
                stores: m.stores.insert(
                    store,
                    StoreModel { value: s.value, subs: s.subs.remove(from) },
                ),
            },
            OutcomeModel::Reply { to: from, store, value: s.value },
        )
    } else {
        (m, OutcomeModel::Silent)
    }
}

/// One dispatcher step: how a namespace's state changes, and what is to be
/// sent, when the dispatcher consumes one envelope. A `SetValue` without
/// write capability is dropped.
pub open spec fn spec_handle(
    m: NamespaceModel,
    from: usize,
    can_write: bool,
    msg: ClientMessage,
) -> (NamespaceModel, OutcomeModel) {
    match msg {
        ClientMessage::Subscribe { store, initial } => spec_subscribe(
            m,
            from,
            can_write,
            store@,
            initial@,
        ),
        ClientMessage::Unsubscribe { store } => spec_unsubscribe(m, from, store@),
        ClientMessage::SetValue { store, value } => if can_write {
            spec_set(m, store@, value@)
        } else {
            (m, OutcomeModel::Silent)
        },
        ClientMessage::Get { store } => spec_get(m, from, store@),
    }
}

/// One named store of the table.
struct StoreEntry {
    name: String,
    store: StoreInner,
}

/// The map a store table denotes: each entry's name bound to its store's
/// abstract state, later entries shadowing earlier ones (the table keeps its
/// names distinct, so nothing is ever shadowed in fact).
spec fn table_map(entries: Seq<StoreEntry>) -> Map<Seq<char>, StoreModel>
    decreases entries.len(),
{
    if entries.len() == 0 {
        Map::empty()
    } else {
        table_map(entries.drop_last()).insert(entries.last().name@, entries.last().store@)
    }
}

/// The table's names are pairwise distinct.
spec fn distinct_names(entries: Seq<StoreEntry>) -> bool {
    forall|i: int, j: int|
        0 <= i < j < entries.len() ==> entries[i].name@ != entries[j].name@
}

/// A name no entry carries is not in the table's map.
proof fn lemma_table_map_absent(entries: Seq<StoreEntry>, n: Seq<char>)
    requires
        forall|i: int| 0 <= i < entries.len() ==> (#[trigger] entries[i].name@) != n,
    ensures
        !table_map(entries).dom().contains(n),
    decreases entries.len(),
{
    if entries.len() > 0 {
        assert forall|i: int| 0 <= i < entries.drop_last().len()
            implies (#[trigger] entries.drop_last()[i].name@) != n by {
            assert(entries.drop_last()[i] == entries[i]);
        }
        lemma_table_map_absent(entries.drop_last(), n);
        assert(entries[entries.len() - 1].name@ != n);
    }
}

/// With distinct names, each entry is bound in the table's map to its own
/// store.
proof fn lemma_table_map_at(entries: Seq<StoreEntry>, i: int)
    requires
        distinct_names(entries),
        0 <= i < entries.len(),
    ensures
        table_map(entries).dom().contains(entries[i].name@),
        table_map(entries)[entries[i].name@] == entries[i].store@,
    decreases entries.len(),
{
    if i == entries.len() - 1 {
    } else {
        lemma_table_map_at(entries.drop_last(), i);
        assert(entries.drop_last()[i] == entries[i]);
        assert(entries[i].name@ != entries.last().name@);
    }
}

/// One isolated broker domain: a write secret, the table of its stores, and
/// the pool of its client connections.
pub struct NamespaceInner {
    write_key: String,
    stores: Vec<StoreEntry>,
    pool: WebSocketPoolInner,
}

impl View for NamespaceInner {
    type V = NamespaceModel;

    closed spec fn view(&self) -> NamespaceModel {
        NamespaceModel { secret: self.write_key@, stores: table_map(self.stores@) }
    }
}

impl NamespaceInner {
    /// The set of currently attached connections.
    pub closed spec fn live(self) -> Set<usize> {
        self.pool@
    }

    /// The next connection identifier the namespace's pool will hand out.
    pub closed spec fn spec_counter(self) -> usize {
        self.pool.spec_counter()
    }

    pub closed spec fn wf(self) -> bool {
        &&& self.pool.wf()
        &&& forall|i: int| 0 <= i < self.stores@.len()
            ==> (#[trigger] self.stores@[i]).store.wf()
        &&& distinct_names(self.stores@)
    }

    /// A fresh namespace guarding writes with the given secret: no stores,
    /// no connections.
    pub fn new(write_key: String) -> (r: NamespaceInner)
        ensures
            r.wf(),
            r@.secret == write_key@,
            forall|n: Seq<char>| !r@.stores.dom().contains(n),
            r.live() == Set::<usize>::empty(),
    {
        NamespaceInner {
            write_key,
            stores: Vec::new(),
            pool: WebSocketPoolInner::new(),
        }
    }

    /// The position of the store with this name, if the table holds one.
    fn find_store(&self, name: &String) -> (r: Option<usize>)
        ensures
            match r {
                Some(i) => i < self.stores@.len() && self.stores@[i as int].name@ == name@,
                None => forall|i: int| 0 <= i < self.stores@.len()
                    ==> (#[trigger] self.stores@[i].name@) != name@,
            },
    {
        let n = self.stores.len();
        let mut i: usize = 0;
        while i < n
            invariant
                i <= n,
                n == self.stores@.len(),
                forall|j: int| 0 <= j < i ==> (#[trigger] self.stores@[j].name@) != name@,
            decreases n - i,
        {
            if self.stores[i].name == *name {
                return Some(i);
            }
            i = i + 1;
        }
        None
    }

    /// Binds a name to a fresh store holding the given value and no
    /// subscribers, replacing any store the name was bound to before.
    pub fn new_store(&mut self, name: String, value: String)
        requires
            old(self).wf(),
        ensures
            final(self).wf(),
            final(self)@.secret == old(self)@.secret,
            final(self)@.stores == old(self)@.stores.insert(
                name@,
                StoreModel { value: value@, subs: Set::empty() },
            ),
            final(self).live() == old(self).live(),
            final(self).spec_counter() == old(self).spec_counter(),
    {
        let ghost entries0 = self.stores@;
        let st = StoreInner::new(value);
        match self.find_store(&name) {
            Some(i) => {
                self.stores[i] = StoreEntry { name, store: st };
                proof {
                    lemma_table_map_update(entries0, i as int, self.stores@[i as int]);
                    lemma_distinct_after_update(entries0, i as int, self.stores@[i as int]);
                }
            },
            None => {
                self.stores.push(StoreEntry { name, store: st });
                proof {
                    assert(self.stores@.drop_last() =~= entries0);
                    assert forall|a: int, b: int| 0 <= a < b < self.stores@.len()
                        implies self.stores@[a].name@ != self.stores@[b].name@ by {
                        if b < entries0.len() {
                            assert(entries0[a].name@ != entries0[b].name@);
                        }
                    }
                }
            },
        }
    }

    /// Applies one envelope from the mailbox: the dispatcher's single step.
    /// The namespace's state changes exactly as `spec_handle` says, and the
    /// returned outcome tells the caller what to send. A broadcast's target
    /// list is a duplicate-free snapshot of the store's subscribers; after
    /// performing it the caller reports the identifiers that could not be
    /// reached to `prune_subscribers`.
    pub fn handle_message(&mut self, envelope: TaggedMessage) -> (r: Outcome)
        requires
            old(self).wf(),
        ensures
            final(self).wf(),
            final(self)@ == spec_handle(
                old(self)@,
                envelope.socket_id,
                envelope.tag,
                envelope.message,
            ).0,
            r@ == spec_handle(old(self)@, envelope.socket_id, envelope.tag, envelope.message).1,
            r matches Outcome::Broadcast { targets, .. } ==> targets@.no_duplicates(),
            final(self).live() == old(self).live(),
            final(self).spec_counter() == old(self).spec_counter(),
    {
        let TaggedMessage { socket_id, message, tag: can_write } = envelope;
        let ghost entries0 = self.stores@;
        match message {
            ClientMessage::Subscribe { store, initial } => {
                match self.find_store(&store) {
                    Some(i) => {
                        proof {
                            lemma_table_map_at(entries0, i as int);
                        }
                        let entry = &mut self.stores[i];
                        entry.store.subscribe(socket_id);
                        let value = entry.store.get();
                        proof {
                            lemma_table_map_update(entries0, i as int, self.stores@[i as int]);
                            lemma_distinct_after_update(
                                entries0,
                                i as int,
                                self.stores@[i as int],
                            );
                        }
                        Outcome::Reply {
                            to: socket_id,
                            message: ServerMessage::Update { store, value },
                        }
                    },
                    None => {
                        proof {
                            lemma_table_map_absent(entries0, store@);
                        }
                        if can_write {
                            let value = initial.clone();
                            let mut st = StoreInner::new(initial);
                            st.subscribe(socket_id);
                            self.stores.push(StoreEntry { name: store.clone(), store: st });
                            proof {
                                assert(self.stores@.drop_last() =~= entries0);
                                assert forall|a: int, b: int| 0 <= a < b < self.stores@.len()
                                    implies self.stores@[a].name@ != self.stores@[b].name@ by {
                                    if b < entries0.len() {
                                        assert(entries0[a].name@ != entries0[b].name@);
                                    }
                                }
                            }
                            Outcome::Reply {
                                to: socket_id,
                                message: ServerMessage::Update { store, value },
                            }
                        } else {
                            Outcome::Silent
                        }
                    },
                }
            },
            ClientMessage::Unsubscribe { store } => {
                match self.find_store(&store) {
                    Some(i) => {
                        proof {
                            lemma_table_map_at(entries0, i as int);
                        }
                        let entry = &mut self.stores[i];
                        entry.store.unsubscribe(&socket_id);
                        proof {
                            lemma_table_map_update(entries0, i as int, self.stores@[i as int]);
                            lemma_distinct_after_update(
                                entries0,
                                i as int,
                                self.stores@[i as int],
                            );
                        }
                        Outcome::Silent
                    },
                    None => {
                        proof {
                            lemma_table_map_absent(entries0, store@);
                        }
                        Outcome::Silent
                    },
                }
            },
            ClientMessage::SetValue { store, value } => {
                if !can_write {
                    return Outcome::Silent;
                }
                match self.find_store(&store) {
                    Some(i) => {
                        proof {
                            lemma_table_map_at(entries0, i as int);
                        }
                        let entry = &mut self.stores[i];
                        entry.store.set(value.clone());
                        let targets = entry.store.subscibers();
                        proof {
                            lemma_table_map_update(entries0, i as int, self.stores@[i as int]);
                            lemma_distinct_after_update(
                                entries0,
                                i as int,
                                self.stores@[i as int],
                            );
                            assert(targets@.to_set() =~= entries0[i as int].store@.subs);
                        }
                        Outcome::Broadcast {
                            targets,
                            message: ServerMessage::Update { store, value },
                        }
                    },
                    None => {
                        proof {
                            lemma_table_map_absent(entries0, store@);
                        }
                        self.new_store(store, value);
                        Outcome::Silent
                    },
                }
            },
            ClientMessage::Get { store } => {
                match self.find_store(&store) {
                    Some(i) => {
                        proof {
                            lemma_table_map_at(entries0, i as int);
                        }
                        let entry = &mut self.stores[i];
                        let value = entry.store.get();
                        entry.store.unsubscribe(&socket_id);
                        proof {
                            lemma_table_map_update(entries0, i as int, self.stores@[i as int]);
                            lemma_distinct_after_update(
                                entries0,
                                i as int,
                                self.stores@[i as int],
                            );
                        }
                        Outcome::Reply {
                            to: socket_id,
                            message: ServerMessage::Update { store, value },
                        }
                    },
                    None => {
                        proof {
                            lemma_table_map_absent(entries0, store@);
                        }
                        Outcome::Silent
                    },
                }
            },
        }
    }

    /// The current value of a store, or nothing when the namespace holds no
    /// store of that name.
    pub fn read_store(&self, name: &String) -> (r: Option<String>)
        requires
            self.wf(),
        ensures
            match r {
                Some(v) => self@.stores.dom().contains(name@) && v@ == self@.stores[name@].value,
                None => !self@.stores.dom().contains(name@),
            },
    {
        match self.find_store(name) {
            Some(i) => {
                proof {
                    lemma_table_map_at(self.stores@, i as int);
                }
                Some(self.stores[i].store.get())
            },
            None => {
                proof {
                    lemma_table_map_absent(self.stores@, name@);
                }
                None
            },
        }
    }
    /// The direct, non-socket write path: with the right key it behaves
    /// exactly like a dispatcher `SetValue` under write capability — the
    /// returned outcome carries the fan-out to perform, and the caller
    /// reports failures to `prune_subscribers`. A wrong key is rejected
    /// without touching any store.
    pub fn write_store(&mut self, name: &String, write_key: &String, value: String) -> (r:
        Result<Outcome, WriteError>)
        requires
            old(self).wf(),
        ensures
            final(self).wf(),
            final(self).live() == old(self).live(),
            final(self).spec_counter() == old(self).spec_counter(),
            r matches Ok(..) <==> write_key@ == old(self)@.secret,
            write_key@ != old(self)@.secret ==> final(self)@ == old(self)@ && r matches Err(
                WriteError::InvalidWriteKey,
            ),
            write_key@ == old(self)@.secret ==> final(self)@ == spec_set(
                old(self)@,
                name@,
                value@,
            ).0,
            write_key@ == old(self)@.secret ==> (r matches Ok(out) && out@ == spec_set(
                old(self)@,
                name@,
                value@,
            ).1 && (out matches Outcome::Broadcast { targets, .. } ==> targets@.no_duplicates())),
    {
        if !(*write_key == self.write_key) {
            return Err(WriteError::InvalidWriteKey);
        }
        let ghost entries0 = self.stores@;
        match self.find_store(name) {
            Some(i) => {
                proof {
                    lemma_table_map_at(entries0, i as int);
                }
                let entry = &mut self.stores[i];
                entry.store.set(value.clone());
                let targets = entry.store.subscibers();
                proof {
                    lemma_table_map_update(entries0, i as int, self.stores@[i as int]);
                    lemma_distinct_after_update(entries0, i as int, self.stores@[i as int]);
                    assert(targets@.to_set() =~= entries0[i as int].store@.subs);
                }
                Ok(Outcome::Broadcast {
                    targets,
                    message: ServerMessage::Update { store: name.clone(), value },
                })
            },
            None => {
                proof {
                    lemma_table_map_absent(entries0, name@);
                }
                self.new_store(name.clone(), value);
                Ok(Outcome::Silent)
            },
        }
    }

    /// Drops from a store's subscriber set every identifier a fan-out
    /// failed to reach, keeping the set consistent with actually-reachable
    /// connections. A name the namespace holds no store for is a no-op, as
    /// is an identifier that was not subscribed.
    pub fn prune_subscribers(&mut self, name: &String, failed: &Vec<usize>)
        requires
            old(self).wf(),
        ensures
            final(self).wf(),
            final(self)@.secret == old(self)@.secret,
            final(self).live() == old(self).live(),
            final(self).spec_counter() == old(self).spec_counter(),
            final(self)@.stores.dom() == old(self)@.stores.dom(),
            !old(self)@.stores.dom().contains(name@) ==> final(self)@ == old(self)@,
            forall|n: Seq<char>| old(self)@.stores.dom().contains(n) && n != name@
                ==> final(self)@.stores[n] == old(self)@.stores[n],
            old(self)@.stores.dom().contains(name@) ==> final(self)@.stores[name@].value == old(
                self,
            )@.stores[name@].value,
            old(self)@.stores.dom().contains(name@) ==> (forall|id: usize|
                final(self)@.stores[name@].subs.contains(id)
                    <==> old(self)@.stores[name@].subs.contains(id) && !failed@.contains(id)),
    {
        let ghost entries0 = self.stores@;
        match self.find_store(name) {
            Some(i) => {
                proof {
                    lemma_table_map_at(entries0, i as int);
                }
                let entry = &mut self.stores[i];
                entry.store.unsubscribe_many(failed);
                proof {
                    lemma_table_map_update(entries0, i as int, self.stores@[i as int]);
                    lemma_distinct_after_update(entries0, i as int, self.stores@[i as int]);
                    assert(final(self)@.stores.dom() =~= old(self)@.stores.dom());
                    assert(final(self)@.stores[name@] == self.stores@[i as int].store@);
                    assert(old(self)@.stores[name@] == entries0[i as int].store@);
                    assert(final(self)@.stores[name@].subs == old(self)@.stores[
                        name@
                    ].subs.difference(failed@.to_set()));
                }
            },
            None => {
                proof {
                    lemma_table_map_absent(entries0, name@);
                }
            },
        }
    }

    /// Evicts a store from the namespace: the name is unbound and its value
    /// and subscriber set are dropped. This is the explicit arm of the
    /// idle-eviction policy — a store untouched for the idle window loses
    /// its slot, and a later operation on the name simply re-creates it. A
    /// name the namespace holds no store for is a no-op.
    pub fn evict_store(&mut self, name: &String)
        requires
            old(self).wf(),
        ensures
            final(self).wf(),
            final(self)@.secret == old(self)@.secret,
            final(self)@.stores == old(self)@.stores.remove(name@),
            final(self).live() == old(self).live(),
            final(self).spec_counter() == old(self).spec_counter(),
    {
        let ghost entries0 = self.stores@;
        match self.find_store(name) {
            Some(i) => {
                proof {
                    lemma_table_map_remove(entries0, i as int);
                }
                self.stores.remove(i);
                proof {
                    assert forall|a: int, b: int| 0 <= a < b < self.stores@.len()
                        implies self.stores@[a].name@ != self.stores@[b].name@ by {
                        let a0: int = if a < i { a } else { a + 1 };
                        let b0: int = if b < i { b } else { b + 1 };
                        assert(entries0[a0].name@ != entries0[b0].name@);
                    }
                }
            },
            None => {
                proof {
                    lemma_table_map_absent(entries0, name@);
                    assert(old(self)@.stores.remove(name@) =~= old(self)@.stores);
                }
            },
        }
    }

    /// Whether another connection can still be attached (the pool's
    /// identifier counter has not been exhausted).
    pub fn can_attach(&self) -> (r: bool)
        requires
            self.wf(),
        ensures
            r == (self.spec_counter() < usize::MAX),
    {
        self.pool.can_attach()
    }

    /// Attaches an arriving connection: its write capability is granted
    /// exactly when the supplied token matches the namespace's write
    /// secret, fixed for the connection's lifetime, and the pool registers
    /// it under a fresh identifier no live connection shares.
    pub fn add_connection(&mut self, write_key: Option<&String>) -> (r: (usize, bool))
        requires
            old(self).wf(),
            old(self).spec_counter() < usize::MAX,
        ensures
            final(self).wf(),
            final(self)@ == old(self)@,
            r.1 == (write_key matches Some(k) && k@ == old(self)@.secret),
            r.0 == old(self).spec_counter(),
            !old(self).live().contains(r.0),
            final(self).live() == old(self).live().insert(r.0),
            final(self).spec_counter() == r.0 + 1,
    {
        let can_write = match write_key {
            Some(k) => *k == self.write_key,
            None => false,
        };
        let id = self.pool.listen_to();
        (id, can_write)
    }

    /// Detaches a connection from the pool; senders holding its identifier
    /// afterwards find it absent and no-op.
    pub fn remove_socket(&mut self, id: usize)
        requires
            old(self).wf(),
        ensures
            final(self).wf(),
            final(self)@ == old(self)@,
            final(self).live() == old(self).live().remove(id),
            final(self).spec_counter() == old(self).spec_counter(),
    {
        self.pool.remove_socket(id);
    }

    /// Whether a connection is currently attached.
    pub fn has_socket(&self, id: usize) -> (r: bool)
        ensures
            r == self.live().contains(id),
    {
        self.pool.contains(id)
    }

    /// A snapshot of the attached connections, each identifier exactly
    /// once.
    pub fn socket_ids(&self) -> (r: Vec<usize>)
        requires
            self.wf(),
        ensures
            r@.no_duplicates(),
            forall|id: usize| r@.contains(id) <==> self.live().contains(id),
    {
        self.pool.socket_ids()
    }
}

/// With distinct names, removing one entry removes one binding of the
/// table's map.
proof fn lemma_table_map_remove(entries: Seq<StoreEntry>, i: int)
    requires
        distinct_names(entries),
        0 <= i < entries.len(),
    ensures
        table_map(entries.remove(i)) == table_map(entries).remove(entries[i].name@),
    decreases entries.len(),
{
    let removed = entries.remove(i);
    let name = entries[i].name@;
    if i == entries.len() - 1 {
        assert(removed =~= entries.drop_last());
        assert forall|j: int| 0 <= j < entries.drop_last().len()
            implies (#[trigger] entries.drop_last()[j].name@) != name by {
            assert(entries.drop_last()[j] == entries[j]);
        }
        lemma_table_map_absent(entries.drop_last(), name);
        assert(table_map(removed) =~= table_map(entries).remove(name));
    } else {
        assert forall|a: int, b: int| 0 <= a < b < entries.drop_last().len()
            implies entries.drop_last()[a].name@ != entries.drop_last()[b].name@ by {
            assert(entries.drop_last()[a] == entries[a]);
            assert(entries.drop_last()[b] == entries[b]);
        }
        lemma_table_map_remove(entries.drop_last(), i);
        assert(removed.drop_last() =~= entries.drop_last().remove(i));
        assert(removed.last() == entries.last());
        assert(entries.drop_last()[i] == entries[i]);
        assert(name != entries.last().name@);
        assert(table_map(removed) =~= table_map(entries).remove(name));
    }
}

/// Replacing the store of one entry, keeping its name, keeps the table's
/// names distinct.
proof fn lemma_distinct_after_update(entries: Seq<StoreEntry>, i: int, e: StoreEntry)
    requires
        distinct_names(entries),
        0 <= i < entries.len(),
        e.name@ == entries[i].name@,
    ensures
        distinct_names(entries.update(i, e)),
{
    let updated = entries.update(i, e);
    assert forall|a: int, b: int| 0 <= a < b < updated.len()
        implies updated[a].name@ != updated[b].name@ by {
        assert(entries[a].name@ != entries[b].name@);
    }
}

/// With distinct names, replacing the store of one entry replaces one
/// binding of the table's map.
proof fn lemma_table_map_update(entries: Seq<StoreEntry>, i: int, e: StoreEntry)
    requires
        distinct_names(entries),
        0 <= i < entries.len(),
        e.name@ == entries[i].name@,
    ensures
        table_map(entries.update(i, e)) == table_map(entries).insert(e.name@, e.store@),
    decreases entries.len(),
{
    let updated = entries.update(i, e);
    if i == entries.len() - 1 {
        assert(updated.drop_last() =~= entries.drop_last());
        assert(updated.last() == e);
        assert(table_map(updated) =~= table_map(entries).insert(e.name@, e.store@));
    } else {
        lemma_table_map_update(entries.drop_last(), i, e);
        assert(updated.drop_last() =~= entries.drop_last().update(i, e));
        assert(updated.last() == entries.last());
        assert(e.name@ != entries.last().name@);
        assert(table_map(updated) =~= table_map(entries).insert(e.name@, e.store@));
    }
}

/// Law: a connection without write capability can never create a store nor
/// change any store's value, whatever message it sends — at most its own
/// subscriptions move. (The direct write path states its own half: a wrong
/// key is rejected by `write_store` with nothing mutated.)
pub proof fn lemma_write_isolation(m: NamespaceModel, from: usize, msg: ClientMessage)
    ensures
        spec_handle(m, from, false, msg).0.secret == m.secret,
        spec_handle(m, from, false, msg).0.stores.dom() == m.stores.dom(),
        forall|n: Seq<char>| m.stores.dom().contains(n)
            ==> spec_handle(m, from, false, msg).0.stores[n].value == m.stores[n].value,
{
    let m2 = spec_handle(m, from, false, msg).0;
    match msg {
        ClientMessage::Subscribe { store, initial } => {
            if m.stores.dom().contains(store@) {
                assert(m2.stores.dom() =~= m.stores.dom());
            }
        },
        ClientMessage::Unsubscribe { store } => {
            if m.stores.dom().contains(store@) {
                assert(m2.stores.dom() =~= m.stores.dom());
            }
        },
        ClientMessage::SetValue { .. } => {},
        ClientMessage::Get { store } => {
            if m.stores.dom().contains(store@) {
                assert(m2.stores.dom() =~= m.stores.dom());
            }
        },
    }
}

/// Law: subscribing to an existing store with value V yields exactly one
/// `Update` reply, addressed to the subscribing connection and carrying V —
/// no broadcast to anyone else — while the connection joins the store's
/// subscriber set, the value stays V, and every other store is untouched.
pub proof fn lemma_read_after_subscribe(
    m: NamespaceModel,
    from: usize,
    can_write: bool,
    store: String,
    initial: String,
)
    requires
        m.stores.dom().contains(store@),
    ensures
        spec_handle(m, from, can_write, ClientMessage::Subscribe { store, initial }).1
            == (OutcomeModel::Reply { to: from, store: store@, value: m.stores[store@].value }),
        spec_handle(m, from, can_write, ClientMessage::Subscribe { store, initial }).0.stores[
            store@
        ].subs == m.stores[store@].subs.insert(from),
        spec_handle(m, from, can_write, ClientMessage::Subscribe { store, initial }).0.stores[
            store@
        ].value == m.stores[store@].value,
        forall|n: Seq<char>| m.stores.dom().contains(n) && n != store@
            ==> spec_handle(m, from, can_write, ClientMessage::Subscribe { store, initial }).0.stores[n]
                == m.stores[n],
{
}

/// Law: a write to an existing store asks for a fan-out to exactly the
/// store's subscribers at the time of the write, carrying the new value;
/// the subscriber set itself is not changed by the write (only a failure
/// report to `prune_subscribers` shrinks it).
pub proof fn lemma_fanout_targets(m: NamespaceModel, from: usize, store: String, value: String)
    requires
        m.stores.dom().contains(store@),
    ensures
        spec_handle(m, from, true, ClientMessage::SetValue { store, value }).1
            == (OutcomeModel::Broadcast {
                targets: m.stores[store@].subs,
                store: store@,
                value: value@,
            }),
        spec_handle(m, from, true, ClientMessage::SetValue { store, value }).0.stores[
            store@
        ].subs == m.stores[store@].subs,
        spec_handle(m, from, true, ClientMessage::SetValue { store, value }).0.stores[
            store@
        ].value == value@,
{
}

/// Law: unsubscribing a connection that is not subscribed — from a store
/// that exists without holding it, or from a store that does not exist —
/// changes nothing and sends nothing.
pub proof fn lemma_idempotent_unsubscribe(
    m: NamespaceModel,
    from: usize,
    can_write: bool,
    store: String,
)
    requires
        !m.stores.dom().contains(store@) || !m.stores[store@].subs.contains(from),
    ensures
        spec_handle(m, from, can_write, ClientMessage::Unsubscribe { store }).0 == m,
        spec_handle(m, from, can_write, ClientMessage::Unsubscribe { store }).1
            == OutcomeModel::Silent,
{
    if m.stores.dom().contains(store@) {
        let s = m.stores[store@];
        assert(s.subs.remove(from) =~= s.subs);
        assert(s == StoreModel { value: s.value, subs: s.subs.remove(from) });
        assert(m.stores.insert(store@, s) =~= m.stores);
        assert(m == NamespaceModel { secret: m.secret, stores: m.stores.insert(store@, s) });
    }
}

} // verus!
