use bytes::Bytes;
use mcpg_cluster_api::backend::{PeerEventStream, PublishedMessageStream};
use mcpg_cluster_api::pub_sub::MessageStream;
use mcpg_cluster_api::watch::WatchStream;
use mcpg_cluster_api::{
    ActiveLease, ClusterBackend, ClusterError, ClusterNodeInfo, ClusterPeer, Duration, Entry,
    KeyValueStore, Lease, LeaseHandle, Message, PeerEvent, PluginManifest, PubSub,
    PublishedMessage, Watch, WatchEvent,
};
use std::cell::RefCell;
use std::collections::{BTreeMap, VecDeque};
use std::rc::Rc;

/// A primitive that the coordinator does not have.
struct Absent;

impl KeyValueStore for Absent {
    fn get(&mut self, _: &str) -> Result<Option<Entry>, ClusterError> {
        unreachable!()
    }
    fn put(&mut self, _: &str, _: Bytes, _: Option<Duration>) -> Result<(), ClusterError> {
        unreachable!()
    }
    fn put_if_absent(
        &mut self,
        _: &str,
        _: Bytes,
        _: Option<Duration>,
    ) -> Result<bool, ClusterError> {
        unreachable!()
    }
    fn delete(&mut self, _: &str) -> Result<bool, ClusterError> {
        unreachable!()
    }
    fn list_prefix(&mut self, _: &str, _: usize) -> Result<Vec<(String, Entry)>, ClusterError> {
        unreachable!()
    }
    fn expire(&mut self, _: &str, _: Option<Duration>) -> Result<bool, ClusterError> {
        unreachable!()
    }
    fn incr(&mut self, _: &str, _: i64, _: Option<Duration>) -> Result<i64, ClusterError> {
        unreachable!()
    }
}

impl MessageStream for Absent {
    fn next(&mut self) -> Option<Result<Message, ClusterError>> {
        unreachable!()
    }
}

impl PubSub for Absent {
    type Subscription = Absent;
    fn publish(&mut self, _: &str, _: Bytes) -> Result<(), ClusterError> {
        unreachable!()
    }
    fn subscribe(&mut self, _: &str, _: Option<&str>) -> Result<Absent, ClusterError> {
        unreachable!()
    }
}

impl WatchStream for Absent {
    fn next(&mut self) -> Option<Result<WatchEvent, ClusterError>> {
        unreachable!()
    }
}

impl Watch for Absent {
    type Stream = Absent;
    fn watch_prefix(&mut self, _: &str) -> Result<Absent, ClusterError> {
        unreachable!()
    }
}

impl Lease for Absent {
    fn try_acquire(
        &mut self,
        _: &str,
        _: &str,
        _: Duration,
    ) -> Result<Option<LeaseHandle>, ClusterError> {
        unreachable!()
    }
    fn renew(&mut self, _: &LeaseHandle, _: Duration) -> Result<LeaseHandle, ClusterError> {
        unreachable!()
    }
    fn release(&mut self, _: &LeaseHandle) -> Result<(), ClusterError> {
        unreachable!()
    }
    fn current_holder(&mut self, _: &str) -> Result<Option<LeaseHandle>, ClusterError> {
        unreachable!()
    }
}

type Inbox = Rc<RefCell<VecDeque<PublishedMessage>>>;

struct Subscriber {
    topic: String,
    group: Option<String>,
    routing_key: Option<String>,
    inbox: Inbox,
}

#[derive(Default)]
struct State {
    minted: BTreeMap<String, u64>,
    grants: BTreeMap<String, (String, u64)>,
    subscribers: Vec<Subscriber>,
    events: Vec<PeerEvent>,
}

struct Node {
    id: String,
    manifest: PluginManifest,
    state: Rc<RefCell<State>>,
}

struct Held {
    name: String,
    node: String,
    token: u64,
    state: Rc<RefCell<State>>,
}

struct Mailbox(Inbox);

struct Events {
    state: Rc<RefCell<State>>,
    at: usize,
}

impl ActiveLease for Held {
    fn fencing_token(&self) -> u64 {
        self.token
    }
    fn expires_at(&self) -> String {
        "2026-04-23T00:00:00Z".into()
    }
    fn renew(&mut self) -> Result<(), ClusterError> {
        match self.state.borrow().grants.get(&self.name) {
            Some((node, token)) if *node == self.node && *token == self.token => Ok(()),
            _ => Err(ClusterError::LeaseExpired),
        }
    }
    fn release(&mut self) -> Result<(), ClusterError> {
        let grants = &mut self.state.borrow_mut().grants;
        if grants.get(&self.name) == Some(&(self.node.clone(), self.token)) {
            grants.remove(&self.name);
        }
        Ok(())
    }
}

impl PublishedMessageStream for Mailbox {
    fn next(&mut self) -> Option<PublishedMessage> {
        self.0.borrow_mut().pop_front()
    }
}

impl PeerEventStream for Events {
    fn next(&mut self) -> Option<PeerEvent> {
        let event = self.state.borrow().events.get(self.at).cloned();
        self.at += usize::from(event.is_some());
        event
    }
}

impl Node {
    fn acquire(&mut self, name: String) -> Option<Held> {
        let mut state = self.state.borrow_mut();
        if state.grants.get(&name).is_some_and(|(node, _)| *node != self.id) {
            return None;
        }
        let token = state.minted.get(&name).copied().unwrap_or(0) + 1;
        state.minted.insert(name.clone(), token);
        state.grants.insert(name.clone(), (self.id.clone(), token));
        Some(Held { name, node: self.id.clone(), token, state: self.state.clone() })
    }
}

impl ClusterBackend for Node {
    type Kv = Absent;
    type Bus = Absent;
    type Leases = Absent;
    type Changes = Absent;
    type Held = Held;
    type Peers = Events;
    type Messages = Mailbox;

    fn manifest(&self) -> &PluginManifest {
        &self.manifest
    }
    fn node_info(&self) -> ClusterNodeInfo {
        ClusterNodeInfo {
            node_id: self.id.clone(),
            address: "10.0.0.1:7777".into(),
            version: "1.0.0".into(),
            started_at: "2026-04-23T00:00:00Z".into(),
            roles: vec![],
        }
    }
    fn list_peers(&self) -> Vec<ClusterPeer> {
        vec![]
    }
    fn watch_peers(&self) -> Events {
        Events { state: self.state.clone(), at: self.state.borrow().events.len() }
    }
    fn acquire_leadership(&mut self, role: &str, _: Duration) -> Result<Held, ClusterError> {
        self.acquire(format!("role {role}")).ok_or(ClusterError::Timeout)
    }
    fn acquire_lock(&mut self, key: &str, _: Duration) -> Result<Held, ClusterError> {
        self.acquire(format!("key {key}")).ok_or(ClusterError::Timeout)
    }
    fn try_acquire_lock(&mut self, key: &str, _: Duration) -> Result<Option<Held>, ClusterError> {
        Ok(self.acquire(format!("key {key}")))
    }
    fn publish(
        &mut self,
        topic: &str,
        routing_key: Option<&str>,
        payload: Bytes,
    ) -> Result<(), ClusterError> {
        let mut served: Vec<String> = vec![];
        for s in &self.state.borrow().subscribers {
            let routed = routing_key.is_none() || routing_key == s.routing_key.as_deref();
            if s.topic != topic || !routed {
                continue;
            }
            if let Some(group) = &s.group {
                if served.contains(group) {
                    continue;
                }
                served.push(group.clone());
            }
            s.inbox.borrow_mut().push_back(PublishedMessage {
                topic: topic.into(),
                routing_key: routing_key.map(Into::into),
                payload: payload.clone(),
                from_node: self.id.clone(),
            });
        }
        Ok(())
    }
    fn subscribe(
        &mut self,
        topic: &str,
        group: Option<&str>,
        routing_key: Option<&str>,
    ) -> Result<Mailbox, ClusterError> {
        let inbox = Inbox::default();
        self.state.borrow_mut().subscribers.push(Subscriber {
            topic: topic.into(),
            group: group.map(Into::into),
            routing_key: routing_key.map(Into::into),
            inbox: inbox.clone(),
        });
        Ok(Mailbox(inbox))
    }
}

fn two_nodes() -> (Node, Node) {
    let state = Rc::new(RefCell::new(State::default()));
    let node = |id: &str| Node {
        id: id.into(),
        manifest: PluginManifest { provides: vec![] },
        state: state.clone(),
    };
    (node("n1"), node("n2"))
}

#[test]
fn a_lock_is_held_by_one_node_at_a_time() {
    let (mut a, mut b) = two_nodes();
    let ttl = Duration::from_secs(30);
    let mut held = a.acquire_lock("k", ttl).unwrap();
    assert!(b.try_acquire_lock("k", ttl).unwrap().is_none());
    assert!(held.renew().is_ok());
    assert!(held.release().is_ok());
    assert!(held.release().is_ok());
    let taken = b.try_acquire_lock("k", ttl).unwrap().unwrap();
    assert!(held.fencing_token() < taken.fencing_token());
    assert_eq!(held.renew(), Err(ClusterError::LeaseExpired));
}

#[test]
fn roles_and_keys_are_apart() {
    let (mut a, mut b) = two_nodes();
    let ttl = Duration::from_secs(30);
    assert!(a.acquire_lock("sweeper", ttl).is_ok());
    assert!(b.acquire_leadership("sweeper", ttl).is_ok());
    assert!(matches!(a.try_acquire_leadership("sweeper", ttl), Err(ClusterError::Timeout)));
}

#[test]
fn without_a_group_everyone_gets_every_message() {
    let (mut a, mut b) = two_nodes();
    b.publish("t", None, Bytes::from_static(b"before")).unwrap();
    let mut one = a.subscribe("t", None, None).unwrap();
    let mut two = b.subscribe("t", None, Some("rk")).unwrap();
    b.publish("t", None, Bytes::from_static(b"all")).unwrap();
    b.publish("t", Some("rk"), Bytes::from_static(b"routed")).unwrap();
    b.publish("u", None, Bytes::from_static(b"elsewhere")).unwrap();
    assert_eq!(one.next().unwrap().payload.as_ref(), b"all");
    assert!(one.next().is_none());
    assert_eq!(two.next().unwrap().payload.as_ref(), b"all");
    assert_eq!(two.next().unwrap().payload.as_ref(), b"routed");
    assert!(two.next().is_none());
}

#[test]
fn members_of_a_group_share_the_messages() {
    let (mut a, mut b) = two_nodes();
    let mut one = a.subscribe("t", Some("g"), None).unwrap();
    let mut two = b.subscribe("t", Some("g"), None).unwrap();
    b.publish("t", None, Bytes::from_static(b"once")).unwrap();
    let received = [one.next(), two.next()];
    assert_eq!(received.iter().flatten().count(), 1);
}

#[test]
fn peer_events_come_from_the_moment_the_stream_is_made() {
    let (a, _) = two_nodes();
    let left = |id: &str| PeerEvent::Left { node_id: id.into() };
    a.state.borrow_mut().events.push(left("n3"));
    let mut events = a.watch_peers();
    a.state.borrow_mut().events.push(left("n4"));
    a.state.borrow_mut().events.push(left("n5"));
    assert_eq!(events.next(), Some(left("n4")));
    assert_eq!(events.next(), Some(left("n5")));
    assert_eq!(events.next(), None);
}
