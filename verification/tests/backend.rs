use bytes::Bytes;
use mcpg_cluster_api::backend::acquired;
use mcpg_cluster_api::{
    ActiveLease, ClusterBackend, ClusterError, ClusterNodeInfo, ClusterPeer, Duration, Entry,
    KeyValueStore, Lease, LeaseHandle, Message, PeerEvent, PeerHealth, PluginManifest, PubSub,
    PublishedMessage, Watch, WatchEvent, WatchEventKind,
};
use mcpg_cluster_api::backend::{PeerEventStream, PublishedMessageStream};
use mcpg_cluster_api::pub_sub::MessageStream;
use mcpg_cluster_api::watch::WatchStream;

#[test]
fn peer_health_label_bounded() {
    assert_eq!(PeerHealth::Healthy.label(), "healthy");
    assert_eq!(PeerHealth::Degraded.label(), "degraded");
    assert_eq!(PeerHealth::Unreachable.label(), "unreachable");
}

#[test]
fn peer_health_shows_its_label() {
    assert_eq!(PeerHealth::Healthy.to_string(), "healthy");
    assert_eq!(PeerHealth::Degraded.to_string(), "degraded");
    assert_eq!(PeerHealth::Unreachable.to_string(), "unreachable");
}

#[test]
fn health_labels_are_distinct() {
    let all = [PeerHealth::Healthy, PeerHealth::Degraded, PeerHealth::Unreachable];
    for a in all {
        for b in all {
            assert_eq!(a.label() == b.label(), a == b);
        }
    }
}

#[test]
fn published_message_clone_keeps_everything() {
    let m = PublishedMessage {
        topic: "t1".into(),
        routing_key: Some("rk".into()),
        payload: Bytes::from_static(b"hello"),
        from_node: "n1".into(),
    };
    assert_eq!(m.clone(), m);
    assert_ne!(PublishedMessage { payload: Bytes::from_static(b"other"), ..m.clone() }, m);
}

#[test]
fn message_and_watch_event_clones_keep_everything() {
    let m = Message { topic: "t".into(), payload: Bytes::from_static(b"p") };
    let c = m.clone();
    assert_eq!(c.topic, "t");
    assert_eq!(c.payload.as_ref(), b"p");
    let e = WatchEvent {
        key: "k".into(),
        kind: WatchEventKind::Updated,
        value: Some(Bytes::from_static(b"v")),
    };
    let c = e.clone();
    assert_eq!(c.key, "k");
    assert_eq!(c.kind, WatchEventKind::Updated);
    assert_eq!(c.value.as_deref(), Some(&b"v"[..]));
}

#[test]
fn acquired_wraps_success_and_passes_errors_on() {
    let ok: Result<u8, ClusterError> = Ok(7);
    assert_eq!(acquired(ok), Ok(Some(7)));
    let err: Result<u8, ClusterError> = Err(ClusterError::Timeout);
    assert_eq!(acquired(err), Err(ClusterError::Timeout));
}

struct NoKv;
impl KeyValueStore for NoKv {
    fn get(&mut self, _: &str) -> Result<Option<Entry>, ClusterError> {
        Err(ClusterError::Shutdown)
    }
    fn put(&mut self, _: &str, _: Bytes, _: Option<Duration>) -> Result<(), ClusterError> {
        Err(ClusterError::Shutdown)
    }
    fn put_if_absent(
        &mut self,
        _: &str,
        _: Bytes,
        _: Option<Duration>,
    ) -> Result<bool, ClusterError> {
        Err(ClusterError::Shutdown)
    }
    fn delete(&mut self, _: &str) -> Result<bool, ClusterError> {
        Err(ClusterError::Shutdown)
    }
    fn list_prefix(&mut self, _: &str, _: usize) -> Result<Vec<(String, Entry)>, ClusterError> {
        Err(ClusterError::Shutdown)
    }
    fn expire(&mut self, _: &str, _: Option<Duration>) -> Result<bool, ClusterError> {
        Err(ClusterError::Shutdown)
    }
    fn incr(&mut self, _: &str, _: i64, _: Option<Duration>) -> Result<i64, ClusterError> {
        Err(ClusterError::Shutdown)
    }
}

struct Silent;
impl MessageStream for Silent {
    fn next(&mut self) -> Option<Result<Message, ClusterError>> {
        None
    }
}
impl WatchStream for Silent {
    fn next(&mut self) -> Option<Result<WatchEvent, ClusterError>> {
        None
    }
}
impl PeerEventStream for Silent {
    fn next(&mut self) -> Option<PeerEvent> {
        None
    }
}
impl PublishedMessageStream for Silent {
    fn next(&mut self) -> Option<PublishedMessage> {
        None
    }
}
impl PubSub for Silent {
    type Subscription = Silent;
    fn publish(&mut self, _: &str, _: Bytes) -> Result<(), ClusterError> {
        Ok(())
    }
    fn subscribe(&mut self, _: &str, _: Option<&str>) -> Result<Silent, ClusterError> {
        Ok(Silent)
    }
}
impl Watch for Silent {
    type Stream = Silent;
    fn watch_prefix(&mut self, _: &str) -> Result<Silent, ClusterError> {
        Ok(Silent)
    }
}
impl Lease for Silent {
    fn try_acquire(
        &mut self,
        _: &str,
        _: &str,
        _: Duration,
    ) -> Result<Option<LeaseHandle>, ClusterError> {
        Ok(None)
    }
    fn renew(&mut self, _: &LeaseHandle, _: Duration) -> Result<LeaseHandle, ClusterError> {
        Err(ClusterError::LeaseExpired)
    }
    fn release(&mut self, _: &LeaseHandle) -> Result<(), ClusterError> {
        Ok(())
    }
    fn current_holder(&mut self, _: &str) -> Result<Option<LeaseHandle>, ClusterError> {
        Ok(None)
    }
}

#[derive(Debug, PartialEq)]
struct Held(u64);
impl ActiveLease for Held {
    fn fencing_token(&self) -> u64 {
        self.0
    }
    fn expires_at(&self) -> String {
        "2026-04-23T00:00:00Z".into()
    }
    fn renew(&mut self) -> Result<(), ClusterError> {
        Ok(())
    }
    fn release(&mut self) -> Result<(), ClusterError> {
        Ok(())
    }
}

struct Coordinator {
    manifest: PluginManifest,
    next: u64,
    down: bool,
}

fn coordinator(provides: &[&str]) -> Coordinator {
    Coordinator {
        manifest: PluginManifest { provides: provides.iter().map(|s| s.to_string()).collect() },
        next: 1,
        down: false,
    }
}

impl Coordinator {
    fn mint(&mut self) -> Result<Held, ClusterError> {
        if self.down {
            return Err(ClusterError::Shutdown);
        }
        self.next += 1;
        Ok(Held(self.next - 1))
    }
}

impl ClusterBackend for Coordinator {
    type Kv = NoKv;
    type Bus = Silent;
    type Leases = Silent;
    type Changes = Silent;
    type Held = Held;
    type Peers = Silent;
    type Messages = Silent;

    fn manifest(&self) -> &PluginManifest {
        &self.manifest
    }
    fn node_info(&self) -> ClusterNodeInfo {
        ClusterNodeInfo {
            node_id: "n1".into(),
            address: "10.0.0.1:7777".into(),
            version: "1.0.0".into(),
            started_at: "2026-04-23T00:00:00Z".into(),
            roles: vec!["task-sweeper".into()],
        }
    }
    fn list_peers(&self) -> Vec<ClusterPeer> {
        vec![]
    }
    fn watch_peers(&self) -> Silent {
        Silent
    }
    fn acquire_leadership(&mut self, _: &str, _: Duration) -> Result<Held, ClusterError> {
        self.mint()
    }
    fn acquire_lock(&mut self, _: &str, _: Duration) -> Result<Held, ClusterError> {
        self.mint()
    }
    fn publish(&mut self, _: &str, _: Option<&str>, _: Bytes) -> Result<(), ClusterError> {
        Ok(())
    }
    fn subscribe(
        &mut self,
        _: &str,
        _: Option<&str>,
        _: Option<&str>,
    ) -> Result<Silent, ClusterError> {
        Ok(Silent)
    }
}

#[test]
fn provided_roles_come_from_the_manifest_sorted_and_once_each() {
    let c = coordinator(&["kv", "bus", "kv", "cache", "bus"]);
    assert_eq!(c.cluster_provides(), vec!["bus", "cache", "kv"]);
    assert_eq!(coordinator(&["cache", "kv", "bus"]).cluster_provides(), c.cluster_provides());
    assert!(coordinator(&[]).cluster_provides().is_empty());
}

#[test]
fn provided_roles_sort_as_a_btree_set_of_strings() {
    let roles = ["z", "", "a", "ab", "a\u{e9}", "aZ", "\u{10348}", "\u{ffff}", "a", "aa"];
    let expected: std::collections::BTreeSet<String> =
        roles.iter().map(|s| s.to_string()).collect();
    let got = coordinator(&roles).cluster_provides();
    assert_eq!(got, expected.into_iter().collect::<Vec<_>>());
}

#[test]
fn primitives_are_absent_by_default() {
    let c = coordinator(&[]);
    assert!(c.key_value_store().is_none());
    assert!(c.pub_sub().is_none());
    assert!(c.lease().is_none());
    assert!(c.watch().is_none());
}

#[test]
fn try_acquire_defaults_to_the_blocking_acquire() {
    let mut c = coordinator(&[]);
    let ttl = Duration::from_secs(30);
    assert_eq!(c.try_acquire_leadership("task-sweeper", ttl), Ok(Some(Held(1))));
    assert_eq!(c.try_acquire_lock("bundle", ttl), Ok(Some(Held(2))));
    c.down = true;
    assert_eq!(c.try_acquire_leadership("task-sweeper", ttl), Err(ClusterError::Shutdown));
    assert_eq!(c.try_acquire_lock("bundle", ttl), Err(ClusterError::Shutdown));
}

#[test]
fn shutdown_does_nothing_by_default() {
    let mut c = coordinator(&["kv"]);
    c.shutdown();
    assert_eq!(c.cluster_provides(), vec!["kv"]);
    assert_eq!(c.next, 1);
}

#[test]
fn fencing_tokens_of_a_coordinator_grow() {
    let mut c = coordinator(&[]);
    let ttl = Duration::from_secs(30);
    let first = c.acquire_lock("k", ttl).unwrap();
    let second = c.acquire_lock("k", ttl).unwrap();
    assert!(first.fencing_token() < second.fencing_token());
}
