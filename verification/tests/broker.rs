use kv_broker::messages::{ClientMessage, TaggedMessage};
use kv_broker::namespace::{NamespaceInner, Outcome, WriteError};
use kv_broker::pool::{replay_connections, PoolOp, WebSocketPoolInner};
use kv_broker::socket::{next_id, IdGen};
use kv_broker::store::StoreInner;
use kv_broker::unique::{replay_snapshot, SetOp, Unique};

fn sorted(mut v: Vec<usize>) -> Vec<usize> {
    v.sort();
    v
}

fn envelope(socket_id: usize, tag: bool, message: ClientMessage) -> TaggedMessage {
    TaggedMessage { socket_id, message, tag }
}

fn subscribe(store: &str, initial: &str) -> ClientMessage {
    ClientMessage::Subscribe { store: store.to_owned(), initial: initial.to_owned() }
}

fn unsubscribe(store: &str) -> ClientMessage {
    ClientMessage::Unsubscribe { store: store.to_owned() }
}

fn set_value(store: &str, value: &str) -> ClientMessage {
    ClientMessage::SetValue { store: store.to_owned(), value: value.to_owned() }
}

fn get(store: &str) -> ClientMessage {
    ClientMessage::Get { store: store.to_owned() }
}

fn reply_of(out: Outcome) -> (usize, String, String) {
    match out {
        Outcome::Reply { to, message } => {
            let kv_broker::messages::ServerMessage::Update { store, value } = message;
            (to, store, value)
        }
        _ => panic!("expected a reply"),
    }
}

fn broadcast_of(out: Outcome) -> (Vec<usize>, String, String) {
    match out {
        Outcome::Broadcast { targets, message } => {
            let kv_broker::messages::ServerMessage::Update { store, value } = message;
            (targets, store, value)
        }
        _ => panic!("expected a broadcast"),
    }
}

#[test]
fn unique_insert_remove_snapshot() {
    let mut u = Unique::new();
    assert!(u.get_all().is_empty());
    u.insert(1);
    u.insert(2);
    u.insert(3);
    u.insert(2);
    assert!(u.contains(2));
    u.remove(&2);
    assert!(!u.contains(2));
    assert!(u.contains(1));
    assert!(u.contains(3));
    assert_eq!(sorted(u.get_all()), vec![1, 3]);
}

#[test]
fn unique_remove_absent_is_noop() {
    let mut u = Unique::new();
    u.insert(9);
    u.remove(&4);
    assert_eq!(u.get_all(), vec![9]);
}

#[test]
fn unique_slot_reuse_keeps_members() {
    let mut u = Unique::new();
    u.insert(10);
    u.insert(20);
    u.remove(&10);
    u.insert(30);
    u.insert(40);
    assert_eq!(sorted(u.get_all()), vec![20, 30, 40]);
}

#[test]
fn replay_snapshot_reports_net_state() {
    let ops = vec![
        SetOp::Insert(1),
        SetOp::Insert(2),
        SetOp::Remove(1),
        SetOp::Insert(3),
        SetOp::Insert(2),
        SetOp::Remove(4),
    ];
    assert_eq!(sorted(replay_snapshot(&ops)), vec![2, 3]);
}

#[test]
fn next_id_is_monotonic() {
    let mut gen = IdGen::new();
    assert_eq!(next_id(&mut gen), 1);
    assert_eq!(next_id(&mut gen), 2);
    assert_eq!(next_id(&mut gen), 3);
}

#[test]
fn pool_never_reuses_identifiers() {
    let issued = replay_connections(&vec![
        PoolOp::Connect,
        PoolOp::Connect,
        PoolOp::Disconnect(1),
        PoolOp::Connect,
        PoolOp::Disconnect(3),
        PoolOp::Connect,
    ]);
    assert_eq!(issued, vec![1, 2, 3, 4]);
}

#[test]
fn pool_attach_and_detach() {
    let mut pool = WebSocketPoolInner::new();
    assert!(pool.can_attach());
    let a = pool.listen_to();
    let b = pool.listen_to();
    assert_ne!(a, b);
    assert!(pool.contains(a));
    assert!(pool.contains(b));
    pool.remove_socket(a);
    assert!(!pool.contains(a));
    assert_eq!(pool.socket_ids(), vec![b]);
}

#[test]
fn store_value_and_subscribers() {
    let mut st = StoreInner::new("a".to_owned());
    assert_eq!(st.get(), "a");
    st.set("b".to_owned());
    assert_eq!(st.get(), "b");
    st.subscribe(5);
    st.subscribe(6);
    st.subscribe(5);
    assert_eq!(sorted(st.subscibers()), vec![5, 6]);
    st.unsubscribe(&5);
    assert_eq!(st.subscibers(), vec![6]);
    st.unsubscribe_many(&vec![6, 7]);
    assert!(st.subscibers().is_empty());
}

#[test]
fn subscribe_with_capability_creates_store() {
    let mut ns = NamespaceInner::new("wk".to_owned());
    let out = ns.handle_message(envelope(1, true, subscribe("s", "v0")));
    let (to, store, value) = reply_of(out);
    assert_eq!(to, 1);
    assert_eq!(store, "s");
    assert_eq!(value, "v0");
    assert_eq!(ns.read_store(&"s".to_owned()), Some("v0".to_owned()));
}

#[test]
fn subscribe_readonly_cannot_create() {
    let mut ns = NamespaceInner::new("wk".to_owned());
    let out = ns.handle_message(envelope(1, false, subscribe("s", "v0")));
    assert!(matches!(out, Outcome::Silent));
    assert_eq!(ns.read_store(&"s".to_owned()), None);
}

#[test]
fn set_readonly_is_dropped() {
    let mut ns = NamespaceInner::new("wk".to_owned());
    let out = ns.handle_message(envelope(1, false, set_value("s", "v1")));
    assert!(matches!(out, Outcome::Silent));
    assert_eq!(ns.read_store(&"s".to_owned()), None);
}

#[test]
fn write_store_rejects_wrong_key() {
    let mut ns = NamespaceInner::new("wk".to_owned());
    let r = ns.write_store(&"s".to_owned(), &"bad".to_owned(), "v".to_owned());
    assert!(matches!(r, Err(WriteError::InvalidWriteKey)));
    assert_eq!(ns.read_store(&"s".to_owned()), None);

    let r = ns.write_store(&"s".to_owned(), &"".to_owned(), "v".to_owned());
    assert!(r.is_err());
    assert_eq!(ns.read_store(&"s".to_owned()), None);
}

#[test]
fn write_store_creates_then_updates() {
    let mut ns = NamespaceInner::new("wk".to_owned());
    let out = ns.write_store(&"s".to_owned(), &"wk".to_owned(), "v0".to_owned()).unwrap();
    assert!(matches!(out, Outcome::Silent));
    assert_eq!(ns.read_store(&"s".to_owned()), Some("v0".to_owned()));

    let out = ns.write_store(&"s".to_owned(), &"wk".to_owned(), "v1".to_owned()).unwrap();
    let (targets, store, value) = broadcast_of(out);
    assert!(targets.is_empty());
    assert_eq!(store, "s");
    assert_eq!(value, "v1");
    assert_eq!(ns.read_store(&"s".to_owned()), Some("v1".to_owned()));
}

#[test]
fn read_after_subscribe_replies_current_value() {
    let mut ns = NamespaceInner::new("wk".to_owned());
    ns.write_store(&"s".to_owned(), &"wk".to_owned(), "v".to_owned()).unwrap();
    let out = ns.handle_message(envelope(2, false, subscribe("s", "ignored")));
    let (to, store, value) = reply_of(out);
    assert_eq!(to, 2);
    assert_eq!(store, "s");
    assert_eq!(value, "v");
    assert_eq!(ns.read_store(&"s".to_owned()), Some("v".to_owned()));
}

#[test]
fn fanout_prunes_failed_subscribers() {
    let mut ns = NamespaceInner::new("wk".to_owned());
    let a = 1;
    let b = 2;
    ns.handle_message(envelope(a, true, subscribe("s", "v0")));
    ns.handle_message(envelope(b, false, subscribe("s", "ignored")));

    let out = ns.handle_message(envelope(a, true, set_value("s", "v1")));
    let (targets, _, value) = broadcast_of(out);
    assert_eq!(sorted(targets), vec![a, b]);
    assert_eq!(value, "v1");

    ns.prune_subscribers(&"s".to_owned(), &vec![b]);

    let out = ns.handle_message(envelope(a, true, set_value("s", "v2")));
    let (targets, _, _) = broadcast_of(out);
    assert_eq!(targets, vec![a]);
}

#[test]
fn prune_on_missing_store_is_noop() {
    let mut ns = NamespaceInner::new("wk".to_owned());
    ns.prune_subscribers(&"nope".to_owned(), &vec![1, 2]);
    assert_eq!(ns.read_store(&"nope".to_owned()), None);
}

#[test]
fn unsubscribe_not_subscribed_is_noop() {
    let mut ns = NamespaceInner::new("wk".to_owned());
    ns.handle_message(envelope(1, true, subscribe("s", "v0")));

    let out = ns.handle_message(envelope(9, false, unsubscribe("s")));
    assert!(matches!(out, Outcome::Silent));
    let out = ns.handle_message(envelope(9, false, unsubscribe("missing")));
    assert!(matches!(out, Outcome::Silent));

    let out = ns.handle_message(envelope(1, true, set_value("s", "v1")));
    let (targets, _, _) = broadcast_of(out);
    assert_eq!(targets, vec![1]);
}

#[test]
fn get_is_a_one_shot_read() {
    let mut ns = NamespaceInner::new("wk".to_owned());
    ns.handle_message(envelope(1, true, subscribe("s", "v0")));

    let out = ns.handle_message(envelope(1, true, get("s")));
    let (to, store, value) = reply_of(out);
    assert_eq!((to, store.as_str(), value.as_str()), (1, "s", "v0"));

    let out = ns.handle_message(envelope(1, true, set_value("s", "v1")));
    let (targets, _, _) = broadcast_of(out);
    assert!(targets.is_empty());
}

#[test]
fn get_missing_store_is_silent() {
    let mut ns = NamespaceInner::new("wk".to_owned());
    let out = ns.handle_message(envelope(1, true, get("nope")));
    assert!(matches!(out, Outcome::Silent));
}

#[test]
fn new_store_replaces_existing() {
    let mut ns = NamespaceInner::new("wk".to_owned());
    ns.new_store("s".to_owned(), "v0".to_owned());
    ns.new_store("s".to_owned(), "v1".to_owned());
    assert_eq!(ns.read_store(&"s".to_owned()), Some("v1".to_owned()));
}

#[test]
fn evicted_store_is_recreated_on_demand() {
    let mut ns = NamespaceInner::new("wk".to_owned());
    ns.new_store("a".to_owned(), "va".to_owned());
    ns.new_store("b".to_owned(), "vb".to_owned());
    ns.evict_store(&"a".to_owned());
    assert_eq!(ns.read_store(&"a".to_owned()), None);
    assert_eq!(ns.read_store(&"b".to_owned()), Some("vb".to_owned()));
    ns.evict_store(&"missing".to_owned());
    let out = ns.handle_message(envelope(1, true, set_value("a", "fresh")));
    assert!(matches!(out, Outcome::Silent));
    assert_eq!(ns.read_store(&"a".to_owned()), Some("fresh".to_owned()));
}

#[test]
fn add_connection_grants_capability_by_secret() {
    let mut ns = NamespaceInner::new("wk".to_owned());
    assert!(ns.can_attach());
    let (c1, w1) = ns.add_connection(Some(&"wk".to_owned()));
    let (c2, w2) = ns.add_connection(Some(&"nope".to_owned()));
    let (c3, w3) = ns.add_connection(None);
    assert!(w1);
    assert!(!w2);
    assert!(!w3);
    assert_ne!(c1, c2);
    assert_ne!(c2, c3);
    assert_ne!(c1, c3);
    assert!(ns.has_socket(c2));
    ns.remove_socket(c2);
    assert!(!ns.has_socket(c2));
    assert_eq!(sorted(ns.socket_ids()), vec![c1, c3]);
}

#[test]
fn empty_secret_namespace() {
    let mut ns = NamespaceInner::new("".to_owned());
    let (_, w) = ns.add_connection(Some(&"".to_owned()));
    assert!(w);
    let (_, w) = ns.add_connection(None);
    assert!(!w);
    assert!(ns.write_store(&"s".to_owned(), &"".to_owned(), "v".to_owned()).is_ok());
    assert_eq!(ns.read_store(&"s".to_owned()), Some("v".to_owned()));
}

#[test]
fn end_to_end_scenario() {
    let mut ns = NamespaceInner::new("wk".to_owned());

    let (c1, w1) = ns.add_connection(Some(&"wk".to_owned()));
    assert!(w1);
    let (to, store, value) = reply_of(ns.handle_message(envelope(c1, w1, subscribe("s", "v0"))));
    assert_eq!((to, store.as_str(), value.as_str()), (c1, "s", "v0"));
    assert_eq!(ns.read_store(&"s".to_owned()), Some("v0".to_owned()));

    let (c2, w2) = ns.add_connection(None);
    assert!(!w2);
    let (to, store, value) = reply_of(ns.handle_message(envelope(c2, w2, subscribe("s", "ignored"))));
    assert_eq!((to, store.as_str(), value.as_str()), (c2, "s", "v0"));
    assert_eq!(ns.read_store(&"s".to_owned()), Some("v0".to_owned()));

    let (targets, store, value) = broadcast_of(ns.handle_message(envelope(c1, w1, set_value("s", "v1"))));
    assert_eq!(sorted(targets), sorted(vec![c1, c2]));
    assert_eq!((store.as_str(), value.as_str()), ("s", "v1"));

    ns.remove_socket(c2);
    let (targets, _, value) = broadcast_of(ns.handle_message(envelope(c1, w1, set_value("s", "v2"))));
    assert_eq!(value, "v2");
    let failed: Vec<usize> = targets.iter().copied().filter(|id| !ns.has_socket(*id)).collect();
    assert_eq!(failed, vec![c2]);
    ns.prune_subscribers(&"s".to_owned(), &failed);
    assert_eq!(ns.read_store(&"s".to_owned()), Some("v2".to_owned()));

    let (targets, _, _) = broadcast_of(ns.handle_message(envelope(c1, w1, set_value("s", "v3"))));
    assert_eq!(targets, vec![c1]);
}
