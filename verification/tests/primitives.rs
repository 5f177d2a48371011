use bytes::Bytes;
use mcpg_cluster_api::pub_sub::MessageStream;
use mcpg_cluster_api::watch::WatchStream;
use mcpg_cluster_api::{
    ClusterError, Duration, FenceToken, Lease, LeaseHandle, Message, PubSub, Timestamp, Watch,
    WatchEvent, WatchEventKind,
};
use std::cell::RefCell;
use std::collections::{BTreeMap, VecDeque};
use std::rc::Rc;

/// Leases in memory, on a clock that the test sets.
#[derive(Default)]
struct Leases {
    now: i128,
    minted: BTreeMap<String, u64>,
    grants: BTreeMap<String, LeaseHandle>,
}

impl Leases {
    fn in_force(&self, name: &str) -> Option<LeaseHandle> {
        self.grants.get(name).filter(|g| self.now <= g.expires_at.unix_nanos).cloned()
    }

    fn after(&self, ttl: Duration) -> Timestamp {
        Timestamp { unix_nanos: self.now + ttl.as_nanos() as i128 }
    }
}

fn conflict(lease: &LeaseHandle) -> ClusterError {
    ClusterError::CasConflict { key: lease.name.clone(), reason: "held by another".into() }
}

impl Lease for Leases {
    fn try_acquire(
        &mut self,
        name: &str,
        holder: &str,
        ttl: Duration,
    ) -> Result<Option<LeaseHandle>, ClusterError> {
        if self.in_force(name).is_some_and(|g| g.holder != holder) {
            return Ok(None);
        }
        let fence = self.minted.entry(name.into()).or_insert(0);
        *fence += 1;
        let fence = FenceToken(*fence);
        let handle = LeaseHandle {
            name: name.into(),
            holder: holder.into(),
            fence,
            expires_at: self.after(ttl),
        };
        self.grants.insert(name.into(), handle.clone());
        Ok(Some(handle))
    }

    fn renew(&mut self, lease: &LeaseHandle, ttl: Duration) -> Result<LeaseHandle, ClusterError> {
        match self.in_force(&lease.name) {
            Some(g) if g.holder == lease.holder && g.fence == lease.fence => {
                let renewed = LeaseHandle { expires_at: self.after(ttl), ..g };
                self.grants.insert(lease.name.clone(), renewed.clone());
                Ok(renewed)
            }
            _ => Err(conflict(lease)),
        }
    }

    fn release(&mut self, lease: &LeaseHandle) -> Result<(), ClusterError> {
        match self.in_force(&lease.name) {
            Some(g) if g.holder != lease.holder => Err(conflict(lease)),
            _ => {
                self.grants.remove(&lease.name);
                Ok(())
            }
        }
    }

    fn current_holder(&mut self, name: &str) -> Result<Option<LeaseHandle>, ClusterError> {
        Ok(self.in_force(name))
    }
}

#[test]
fn fence_tokens_grow_with_every_acquisition() {
    let mut leases = Leases::default();
    let ttl = Duration::from_secs(10);
    let first = leases.try_acquire("l", "a", ttl).unwrap().unwrap();
    let refreshed = leases.try_acquire("l", "a", ttl).unwrap().unwrap();
    leases.release(&refreshed).unwrap();
    let second = leases.try_acquire("l", "b", ttl).unwrap().unwrap();
    assert!(first.fence < refreshed.fence);
    assert!(refreshed.fence < second.fence);
}

/// One of several clients of the leases.
struct Client(Rc<RefCell<Leases>>);

impl Lease for Client {
    fn try_acquire(
        &mut self,
        name: &str,
        holder: &str,
        ttl: Duration,
    ) -> Result<Option<LeaseHandle>, ClusterError> {
        self.0.borrow_mut().try_acquire(name, holder, ttl)
    }

    fn renew(&mut self, lease: &LeaseHandle, ttl: Duration) -> Result<LeaseHandle, ClusterError> {
        self.0.borrow_mut().renew(lease, ttl)
    }

    fn release(&mut self, lease: &LeaseHandle) -> Result<(), ClusterError> {
        self.0.borrow_mut().release(lease)
    }

    fn current_holder(&mut self, name: &str) -> Result<Option<LeaseHandle>, ClusterError> {
        self.0.borrow_mut().current_holder(name)
    }
}

#[test]
fn a_lease_passes_between_clients_only_when_it_ends() {
    let leases = Rc::new(RefCell::new(Leases::default()));
    let (mut a, mut b) = (Client(leases.clone()), Client(leases));
    let ttl = Duration::from_secs(10);
    let held = a.try_acquire("l", "a", ttl).unwrap().unwrap();
    assert!(b.try_acquire("l", "b", ttl).unwrap().is_none());
    a.release(&held).unwrap();
    let taken = b.try_acquire("l", "b", ttl).unwrap().unwrap();
    assert!(held.fence < taken.fence);
}

#[test]
fn a_lease_has_one_holder_until_it_lapses() {
    let mut leases = Leases::default();
    let ttl = Duration::from_secs(10);
    let held = leases.try_acquire("l", "a", ttl).unwrap().unwrap();
    assert!(leases.try_acquire("l", "b", ttl).unwrap().is_none());
    leases.now = 9_000_000_000;
    let held = leases.renew(&held, ttl).unwrap();
    assert_eq!(held.expires_at, Timestamp { unix_nanos: 19_000_000_000 });
    leases.now = 11_000_000_000;
    assert_eq!(leases.current_holder("l").unwrap().unwrap().holder, "a");
    leases.now = 20_000_000_000;
    assert!(leases.current_holder("l").unwrap().is_none());
    assert_eq!(leases.try_acquire("l", "b", ttl).unwrap().unwrap().holder, "b");
}

#[test]
fn only_the_holder_can_change_a_grant() {
    let mut leases = Leases::default();
    let ttl = Duration::from_secs(10);
    let held = leases.try_acquire("l", "a", ttl).unwrap().unwrap();
    let foreign = LeaseHandle { holder: "b".into(), ..held };
    assert!(matches!(leases.renew(&foreign, ttl), Err(ClusterError::CasConflict { .. })));
    assert!(matches!(leases.release(&foreign), Err(ClusterError::CasConflict { .. })));
    assert_eq!(leases.current_holder("l").unwrap().unwrap().holder, "a");
}

#[test]
fn releasing_twice_is_harmless() {
    let mut leases = Leases::default();
    let held = leases.try_acquire("l", "a", Duration::from_secs(10)).unwrap().unwrap();
    assert!(leases.release(&held).is_ok());
    assert!(leases.release(&held).is_ok());
    assert!(leases.current_holder("l").unwrap().is_none());
}

type Queue = Rc<RefCell<VecDeque<Message>>>;

/// A bus in memory, without wildcards.
#[derive(Default)]
struct Bus {
    subscribers: Vec<(String, Queue)>,
}

struct Inbox(Queue);

impl MessageStream for Inbox {
    fn next(&mut self) -> Option<Result<Message, ClusterError>> {
        self.0.borrow_mut().pop_front().map(Ok)
    }
}

impl PubSub for Bus {
    type Subscription = Inbox;

    fn publish(&mut self, topic: &str, payload: Bytes) -> Result<(), ClusterError> {
        for (pattern, queue) in &self.subscribers {
            if pattern == topic {
                let message = Message { topic: topic.into(), payload: payload.clone() };
                queue.borrow_mut().push_back(message);
            }
        }
        Ok(())
    }

    fn subscribe(&mut self, pattern: &str, _: Option<&str>) -> Result<Inbox, ClusterError> {
        let queue = Queue::default();
        self.subscribers.push((pattern.into(), queue.clone()));
        Ok(Inbox(queue))
    }
}

#[test]
fn messages_come_at_most_once_and_are_not_replayed() {
    let mut bus = Bus::default();
    bus.publish("t", Bytes::from_static(b"before")).unwrap();
    let mut inbox = bus.subscribe("t", None).unwrap();
    bus.publish("t", Bytes::from_static(b"after")).unwrap();
    bus.publish("u", Bytes::from_static(b"elsewhere")).unwrap();
    let message = inbox.next().unwrap().unwrap();
    assert_eq!(message.topic, "t");
    assert_eq!(message.payload.as_ref(), b"after");
    assert!(inbox.next().is_none());
}

/// A change feed over changes that have happened already.
struct Feed(Vec<WatchEvent>);

struct Changes(VecDeque<WatchEvent>);

impl WatchStream for Changes {
    fn next(&mut self) -> Option<Result<WatchEvent, ClusterError>> {
        self.0.pop_front().map(Ok)
    }
}

impl Watch for Feed {
    type Stream = Changes;

    fn watch_prefix(&mut self, prefix: &str) -> Result<Changes, ClusterError> {
        Ok(Changes(self.0.iter().filter(|e| e.key.starts_with(prefix)).cloned().collect()))
    }
}

#[test]
fn changes_are_seen_in_order() {
    let change = |key: &str, kind, value: Option<&'static [u8]>| WatchEvent {
        key: key.into(),
        kind,
        value: value.map(Bytes::from_static),
    };
    let mut feed = Feed(vec![
        change("a:1", WatchEventKind::Created, Some(b"x")),
        change("b:1", WatchEventKind::Created, Some(b"y")),
        change("a:1", WatchEventKind::Updated, Some(b"z")),
        change("a:1", WatchEventKind::Deleted, None),
    ]);
    let mut stream = feed.watch_prefix("a:").unwrap();
    let mut kinds = vec![];
    while let Some(Ok(event)) = stream.next() {
        assert_eq!(event.key, "a:1");
        kinds.push(event.kind);
    }
    assert_eq!(
        kinds,
        vec![WatchEventKind::Created, WatchEventKind::Updated, WatchEventKind::Deleted]
    );
}
