//! The coordinator: peer discovery, leader election for singleton roles, fenced
//! locks and notification routing, beside the four primitives.
//!
//! Leases carry a fencing token that grows with every acquisition of the same
//! role or lock key. Consumers use it to reject stale writes: the previous
//! holder's token is lower than the new holder's.

use bytes::Bytes;
use vstd::prelude::*;
use vstd::string::*;

use crate::error::ClusterError;
use crate::key_value::KeyValueStore;
use crate::lease::{
    ends_grant, is_lease_history, law_fence_tokens_grow_across_clients,
    law_lease_passes_on_only_when_it_ends, law_released_lease_is_free, released_answer,
    same_service, Grant, Lease, LeaseAnswer, LeaseClient, LeaseOp,
};
use crate::log::{lemma_one_log, longer, one_log};
use crate::payload::contents;
use crate::pub_sub::PubSub;
use crate::rfc3339::{is_timestamp, tells};
use crate::roles::{is_role_set, names, role_set};
use crate::time::Duration;
use crate::watch::Watch;

verus! {

/// Health of a peer as the local node sees it.
#[derive(Debug, Clone, Copy, PartialEq, Eq, Hash, Structural)]
pub enum PeerHealth {
    Healthy,
    Degraded,
    Unreachable,
}

impl PeerHealth {
    /// The metrics label of the variant.
    pub open spec fn spec_label(self) -> Seq<char> {
        match self {
            PeerHealth::Healthy => "healthy"@,
            PeerHealth::Degraded => "degraded"@,
            PeerHealth::Unreachable => "unreachable"@,
        }
    }

    /// Bounded metrics label.
    #[must_use]
    pub fn label(&self) -> (r: &'static str)
        ensures
            r@ == self.spec_label(),
    {
        match self {
            PeerHealth::Healthy => "healthy",
            PeerHealth::Degraded => "degraded",
            PeerHealth::Unreachable => "unreachable",
        }
    }

    /// The text that is shown for the health: its label.
    pub fn to_string(&self) -> (r: String)
        ensures
            r@ == self.spec_label(),
    {
        self.label().to_owned()
    }
}

/// Labels tell the variants apart.
pub proof fn law_health_label_identifies_variant(a: PeerHealth, b: PeerHealth)
    ensures
        (a.spec_label() == b.spec_label()) == (a == b),
{
    reveal_strlit("healthy");
    reveal_strlit("degraded");
    reveal_strlit("unreachable");
    if a.spec_label() == b.spec_label() {
        assert(a.spec_label()[0] == b.spec_label()[0]);
    }
}

/// What is known of the local node. `started_at` is in RFC 3339.
#[derive(Debug, Clone, PartialEq, Eq)]
pub struct ClusterNodeInfo {
    pub node_id: String,
    pub address: String,
    pub version: String,
    pub started_at: String,
    /// The roles that the node leads.
    pub roles: Vec<String>,
}

/// What is known of a peer. `last_seen` is in RFC 3339.
#[derive(Debug, Clone, PartialEq, Eq)]
pub struct ClusterPeer {
    pub node_id: String,
    pub address: String,
    pub last_seen: String,
    pub health: PeerHealth,
    pub roles: Vec<String>,
}

/// A change in the set of peers. A peer that leaves or changes its health is named
/// by its id, so that consumers need no snapshot of every peer.
#[derive(Debug, Clone, PartialEq, Eq)]
pub enum PeerEvent {
    Joined { peer: ClusterPeer },
    Left { node_id: String },
    HealthChanged { node_id: String, health: PeerHealth },
}

/// A message that came through the coordinator.
#[derive(Debug, PartialEq, Eq)]
pub struct PublishedMessage {
    pub topic: String,
    pub routing_key: Option<String>,
    pub payload: Bytes,
    /// The id of the publishing node. Best effort and not authenticated: for
    /// diagnostics only, never for an authorization decision.
    pub from_node: String,
}

/// What a [`PublishedMessage`] says.
pub ghost struct PublishedMessageView {
    pub topic: Seq<char>,
    pub routing_key: Option<Seq<char>>,
    pub payload: Seq<u8>,
    pub from_node: Seq<char>,
}

/// An optional text.
pub open spec fn text_of(text: Option<String>) -> Option<Seq<char>> {
    match text {
        Some(s) => Some(s@),
        None => None,
    }
}

/// An optional text.
pub open spec fn str_of(text: Option<&str>) -> Option<Seq<char>> {
    match text {
        Some(s) => Some(s@),
        None => None,
    }
}

impl View for PublishedMessage {
    type V = PublishedMessageView;

    open spec fn view(&self) -> PublishedMessageView {
        PublishedMessageView {
            topic: self.topic@,
            routing_key: text_of(self.routing_key),
            payload: contents(self.payload),
            from_node: self.from_node@,
        }
    }
}

impl Clone for PublishedMessage {
    fn clone(&self) -> (r: Self)
        ensures
            r@ == self@,
    {
        let routing_key = match &self.routing_key {
            Some(key) => Some(key.clone()),
            None => None,
        };
        PublishedMessage {
            topic: self.topic.clone(),
            routing_key,
            payload: self.payload.clone(),
            from_node: self.from_node.clone(),
        }
    }
}

/// What a coordinator plugin declares of itself.
#[derive(Debug, Clone)]
pub struct PluginManifest {
    /// The slot roles that the plugin provides: `cache`, `kv`, `bus`.
    pub provides: Vec<String>,
}

/// What an acquired lease stands in with the coordinator.
pub ghost struct HeldLease {
    /// The lease as it was granted, or renewed last.
    pub grant: Grant,
    /// The TTL that it was acquired with, in nanoseconds.
    pub ttl: nat,
    /// What the coordinator has gone through, up to the last operation on the lease.
    pub service: LeaseClient,
    /// Whether it was released.
    pub released: bool,
}

impl HeldLease {
    /// Whether the lease is as acquired, with the last operation of `service`.
    pub open spec fn is_new(self, service: LeaseClient, ttl: nat) -> bool {
        &&& self.service == service
        &&& self.ttl == ttl
        &&& !self.released
    }

    /// Whether the coordinator, when it was asked last, had given the lease to
    /// another node.
    pub open spec fn was_reassigned(self) -> bool {
        let grants = self.service.history.last().moment.pre.grants;
        grants.contains_key(self.grant.name) && grants[self.grant.name].holder != self.grant.holder
    }

    /// Whether this is the lease after `before`, once renewing it was answered with
    /// `r`. A renewal that succeeds extends the grant by the TTL it was acquired
    /// with.
    pub open spec fn renewed(self, before: HeldLease, r: Result<(), ClusterError>) -> bool {
        let op = LeaseOp::Renew { lease: before.grant, ttl: before.ttl };
        &&& self.ttl == before.ttl
        &&& self.released == before.released
        &&& self.grant.fence == before.grant.fence
        &&& match r {
            Ok(_) => self.service.answered(before.service, op, LeaseAnswer::Renewed(self.grant)),
            Err(ClusterError::LeaseExpired) => {
                &&& self.grant == before.grant
                &&& {
                    ||| self.service.answered(before.service, op, LeaseAnswer::Lapsed)
                    ||| self.service.answered(before.service, op, LeaseAnswer::Conflict)
                }
            },
            Err(e) => {
                &&& self.grant == before.grant
                &&& self.service.answered(before.service, op, LeaseAnswer::Failed(e))
                &&& self.was_reassigned() ==> e.is_outage()
            },
        }
    }

    /// Whether this is the lease after `before`, once releasing it was answered with
    /// `r`.
    pub open spec fn after_release(self, before: HeldLease, r: Result<(), ClusterError>) -> bool {
        &&& self.grant == before.grant
        &&& self.ttl == before.ttl
        &&& self.service.answered(
            before.service,
            LeaseOp::Release { lease: before.grant },
            released_answer(r),
        )
        &&& self.released == (before.released || r is Ok)
        &&& before.released ==> (r is Ok || (r matches Err(e) && e.is_outage()))
    }
}

/// An acquired lease: leadership of a role, or a lock. Dropping it does not
/// release it; it then lapses by its TTL.
pub trait ActiveLease: Sized {
    /// What the lease stands in with the coordinator.
    open spec fn held(&self) -> HeldLease {
        arbitrary()
    }

    /// The fencing token. It stays the same for as long as the lease is held.
    fn fencing_token(&self) -> (r: u64)
        ensures
            r == self.held().grant.fence,
    ;

    /// When the grant expires, in RFC 3339.
    fn expires_at(&self) -> (r: String)
        ensures
            tells(r@, self.held().grant.expires_at),
    ;

    /// Extends the lease by the TTL that it was acquired with. Fails with
    /// [`ClusterError::LeaseExpired`] once another node has it, unless the
    /// coordinator cannot be asked.
    fn renew(&mut self) -> (r: Result<(), ClusterError>)
        ensures
            final(self).held().renewed(old(self).held(), r),
    ;

    /// Releases the lease, so that the next acquirer need not wait for its TTL.
    /// Releasing twice is harmless: the second time succeeds, unless the coordinator
    /// cannot be asked.
    fn release(&mut self) -> (r: Result<(), ClusterError>)
        ensures
            final(self).held().after_release(old(self).held(), r),
    ;
}

/// What a stream of peer events stands in with the coordinator.
pub ghost struct PeerFeed {
    /// Every event that the coordinator has observed, as far as it has come to the
    /// stream.
    pub events: Seq<PeerEvent>,
    /// How many it had observed when the stream was made.
    pub since: nat,
    /// How many were delivered.
    pub delivered: nat,
}

impl PeerFeed {
    /// Whether the stream is as made by a coordinator that knew of `events`.
    pub open spec fn is_new(self, events: Seq<PeerEvent>) -> bool {
        &&& events.is_prefix_of(self.events)
        &&& self.since == self.events.len()
        &&& self.delivered == 0
    }

    /// Whether this is the stream after `before`, once its answer was `r`. It brings
    /// every event since it was made, in order.
    pub open spec fn brought(self, before: PeerFeed, r: Option<PeerEvent>) -> bool {
        let place = before.since + before.delivered;
        &&& self.since == before.since
        &&& before.events.is_prefix_of(self.events)
        &&& match r {
            Some(event) => {
                &&& place < self.events.len()
                &&& event == self.events[place as int]
                &&& self.delivered == before.delivered + 1
            },
            None => self.delivered == before.delivered,
        }
    }
}

/// Peer events, in the order in which the coordinator observed them.
pub trait PeerEventStream: Sized {
    /// What the stream stands in with the coordinator.
    open spec fn feed(&self) -> PeerFeed {
        arbitrary()
    }

    /// The next event; `None` once the stream has ended.
    fn next(&mut self) -> (r: Option<PeerEvent>)
        ensures
            final(self).feed().brought(old(self).feed(), r),
    ;
}

/// A notification that a coordinator has accepted, from whichever node.
pub ghost struct Notice {
    pub topic: Seq<char>,
    pub routing_key: Option<Seq<char>>,
    pub payload: Seq<u8>,
}

impl PublishedMessageView {
    /// The notification that the message brings.
    pub open spec fn notice(self) -> Notice {
        Notice { topic: self.topic, routing_key: self.routing_key, payload: self.payload }
    }
}

/// Whether a notification is for a subscription: it is on its topic, and where it was
/// sent with a routing key, the subscription has that key.
pub open spec fn is_routed_to(
    notice: Notice,
    topic: Seq<char>,
    routing_key: Option<Seq<char>>,
) -> bool {
    &&& notice.topic == topic
    &&& notice.routing_key is Some ==> notice.routing_key == routing_key
}

/// A notification that was handed to a subscriber.
pub ghost struct Delivery {
    /// Which subscriber of the group it was.
    pub member: nat,
    /// The place of the notification among those that the coordinator has accepted.
    pub place: int,
}

/// What a subscription stands in with the coordinator.
pub ghost struct NoticeFeed {
    pub topic: Seq<char>,
    pub routing_key: Option<Seq<char>>,
    pub group: Option<Seq<char>>,
    /// Which subscriber of its group it is.
    pub member: nat,
    /// What the coordinator has accepted, as far as it has come to the subscription.
    pub notices: Seq<Notice>,
    /// How much it had accepted when the subscription was made.
    pub since: nat,
    /// What was handed to the subscribers of the group, in order, as far as the
    /// subscription knows of it; without a group, what was handed to this one.
    pub handed: Seq<Delivery>,
}

impl NoticeFeed {
    /// Whether the notification in this place is for the subscription.
    pub open spec fn is_due(self, place: int) -> bool {
        &&& self.since <= place < self.notices.len()
        &&& is_routed_to(self.notices[place], self.topic, self.routing_key)
    }

    /// Whether the notification in this place was handed out.
    pub open spec fn was_handed(self, place: int) -> bool {
        exists|i: int| 0 <= i < self.handed.len() && #[trigger] self.handed[i].place == place
    }

    /// Nothing is handed out twice, to this subscriber only what is due to it, and
    /// without a group to nobody else.
    pub open spec fn is_sound(self) -> bool {
        &&& self.since <= self.notices.len()
        &&& forall|i: int|
            #![trigger self.handed[i]]
            0 <= i < self.handed.len() ==> {
                &&& 0 <= self.handed[i].place < self.notices.len()
                &&& self.handed[i].member == self.member ==> self.is_due(self.handed[i].place)
                &&& self.group is None ==> self.handed[i].member == self.member
            }
        &&& forall|i: int, j: int|
            #![trigger self.handed[i], self.handed[j]]
            0 <= i < j < self.handed.len() ==> self.handed[i].place != self.handed[j].place
    }

    /// Whether the subscription is as made with a coordinator that has accepted
    /// `notices`.
    pub open spec fn is_new(
        self,
        topic: Seq<char>,
        group: Option<Seq<char>>,
        routing_key: Option<Seq<char>>,
        notices: Seq<Notice>,
    ) -> bool {
        &&& self.is_sound()
        &&& self.topic == topic
        &&& self.group == group
        &&& self.routing_key == routing_key
        &&& self.notices == notices
        &&& self.since == notices.len()
        &&& forall|i: int|
            0 <= i < self.handed.len() ==> #[trigger] self.handed[i].member != self.member
    }

    /// Whether this is the same subscription at the time of `before`, or later.
    pub open spec fn is_since(self, before: NoticeFeed) -> bool {
        &&& self.is_sound()
        &&& self.topic == before.topic
        &&& self.routing_key == before.routing_key
        &&& self.group == before.group
        &&& self.member == before.member
        &&& self.since == before.since
        &&& before.notices.is_prefix_of(self.notices)
        &&& before.handed.is_prefix_of(self.handed)
    }

    /// Whether nothing was handed to this subscriber from `before` to the first `n`
    /// deliveries.
    pub open spec fn is_idle(self, before: NoticeFeed, n: int) -> bool {
        forall|i: int|
            before.handed.len() <= i < n ==> #[trigger] self.handed[i].member != self.member
    }

    /// Whether this is the subscription after `before`, once its answer was `r`.
    /// Without a group the stream does not end while anything is due.
    pub open spec fn brought(self, before: NoticeFeed, r: Option<PublishedMessage>) -> bool {
        &&& self.is_since(before)
        &&& match r {
            Some(message) => {
                &&& self.handed.len() > before.handed.len()
                &&& self.is_idle(before, self.handed.len() - 1)
                &&& self.handed.last().member == self.member
                &&& self.notices[self.handed.last().place] == message@.notice()
            },
            None => {
                &&& self.is_idle(before, self.handed.len() as int)
                &&& self.group is None ==> forall|place: int|
                    self.is_due(place) ==> #[trigger] self.was_handed(place)
            },
        }
    }
}

/// Whether two subscriptions are different subscribers of one group.
pub open spec fn share_group(a: NoticeFeed, b: NoticeFeed) -> bool {
    &&& a.topic == b.topic
    &&& a.group is Some
    &&& a.group == b.group
    &&& a.member != b.member
    &&& one_log(a.notices, b.notices)
    &&& one_log(a.handed, b.handed)
}

/// The messages of a subscription at the coordinator.
pub trait PublishedMessageStream: Sized {
    /// What the subscription stands in with the coordinator.
    open spec fn feed(&self) -> NoticeFeed {
        arbitrary()
    }

    /// The next message; `None` once the stream has ended.
    fn next(&mut self) -> (r: Option<PublishedMessage>)
        ensures
            final(self).feed().brought(old(self).feed(), r),
    ;
}

/// What is held by an [`ActiveLease`].
pub ghost enum LockName {
    /// Leadership of a role.
    Role(Seq<char>),
    /// The lock of a key.
    Key(Seq<char>),
}

/// A call of a [`ClusterBackend`] method that may change the coordinator. TTLs are in
/// nanoseconds.
pub ghost enum BackendCall<L> {
    Acquire { name: LockName, ttl: nat, answer: Result<L, ClusterError> },
    TryAcquire { name: LockName, ttl: nat, answer: Result<Option<L>, ClusterError> },
    Publish { notice: Notice, answer: Result<(), ClusterError> },
    Subscribe { topic: Seq<char>, group: Option<Seq<char>>, routing_key: Option<Seq<char>> },
    Shutdown,
}

/// What one node stands in with the cluster.
pub ghost struct NodeView<L> {
    /// The id of the node.
    pub node: Seq<char>,
    /// What the cluster has gone through in leadership of roles, up to the node's
    /// last operation.
    pub roles: LeaseClient,
    /// What it has gone through in locks of keys.
    pub locks: LeaseClient,
    /// What the coordinator has accepted for publication, from whichever node.
    pub notices: Seq<Notice>,
    /// What the coordinator has observed of the peers.
    pub peer_events: Seq<PeerEvent>,
    /// The calls that were made through this value, in order.
    pub calls: Seq<BackendCall<L>>,
}

impl<L> NodeView<L> {
    /// The leases of roles, or those of keys.
    pub open spec fn leases(self, name: LockName) -> LeaseClient {
        match name {
            LockName::Role(_) => self.roles,
            LockName::Key(_) => self.locks,
        }
    }

    /// Whether this is the same node at the time of `before`, or later.
    pub open spec fn is_since(self, before: NodeView<L>) -> bool {
        &&& self.node == before.node
        &&& before.notices.is_prefix_of(self.notices)
        &&& before.peer_events.is_prefix_of(self.peer_events)
    }

    /// Whether this is the node after `before`, once it has asked for `name` and got
    /// `answer`. Roles and keys are apart.
    pub open spec fn asked_for(
        self,
        before: NodeView<L>,
        name: LockName,
        ttl: nat,
        answer: LeaseAnswer,
    ) -> bool {
        &&& self.is_since(before)
        &&& self.leases(name).answered(
            before.leases(name),
            LeaseOp::TryAcquire { name: text_of_lock(name), holder: before.node, ttl },
            answer,
        )
        &&& match name {
            LockName::Role(_) => self.locks == before.locks,
            LockName::Key(_) => self.roles == before.roles,
        }
    }

    /// Whether this is the node after `before`, once a call was made that is not
    /// about leases.
    pub open spec fn called(self, before: NodeView<L>, call: BackendCall<L>) -> bool {
        &&& self.is_since(before)
        &&& self.roles == before.roles
        &&& self.locks == before.locks
        &&& self.calls == before.calls.push(call)
    }
}

/// The role or key of a name.
pub open spec fn text_of_lock(name: LockName) -> Seq<char> {
    match name {
        LockName::Role(role) => role,
        LockName::Key(key) => key,
    }
}

/// The answer that the result of an acquisition that waits stands for.
pub open spec fn waited_answer<L: ActiveLease>(r: Result<L, ClusterError>) -> LeaseAnswer {
    match r {
        Ok(lease) => LeaseAnswer::Acquired(Some(lease.held().grant)),
        Err(e) => LeaseAnswer::Failed(e),
    }
}

/// The answer that the result of an acquisition that does not wait stands for.
pub open spec fn tried_answer<L: ActiveLease>(r: Result<Option<L>, ClusterError>) -> LeaseAnswer {
    match r {
        Ok(Some(lease)) => LeaseAnswer::Acquired(Some(lease.held().grant)),
        Ok(None) => LeaseAnswer::Acquired(None),
        Err(e) => LeaseAnswer::Failed(e),
    }
}

/// Whether the calls of `after` are those of `before` and one acquisition that waited,
/// whose answer `r` passes on.
pub open spec fn waited_once<L>(
    before: NodeView<L>,
    after: NodeView<L>,
    name: LockName,
    ttl: nat,
    r: Result<Option<L>, ClusterError>,
) -> bool {
    exists|answer: Result<L, ClusterError>|
        after.calls == before.calls.push(BackendCall::Acquire { name, ttl, answer }) && r
            == #[trigger] spec_acquired(answer)
}

/// The answer of an acquisition that waits, as one that does not: what was
/// acquired is there, and a failure stays the failure that it is.
pub open spec fn spec_acquired<L>(r: Result<L, ClusterError>) -> Result<
    Option<L>,
    ClusterError,
> {
    match r {
        Ok(lease) => Ok(Some(lease)),
        Err(e) => Err(e),
    }
}

/// The answer of an acquisition that waits, as one that does not.
pub fn acquired<L>(r: Result<L, ClusterError>) -> (out: Result<Option<L>, ClusterError>)
    ensures
        out == spec_acquired(r),
{
    match r {
        Ok(lease) => Ok(Some(lease)),
        Err(e) => Err(e),
    }
}

/// The cluster coordinator.
///
/// A coordinator hands out whichever primitives it has. Which slots it can back is
/// declared separately, by the roles it provides.
pub trait ClusterBackend: Sized {
    type Kv: KeyValueStore;

    type Bus: PubSub;

    type Leases: Lease;

    type Changes: Watch;

    type Held: ActiveLease;

    type Peers: PeerEventStream;

    type Messages: PublishedMessageStream;

    /// What the plugin declares of itself.
    open spec fn declared(&self) -> PluginManifest {
        arbitrary()
    }

    /// What the node stands in with the cluster.
    open spec fn view_of_node(&self) -> NodeView<Self::Held> {
        arbitrary()
    }

    fn manifest(&self) -> (r: &PluginManifest)
        ensures
            *r == self.declared(),
    ;

    /// The set of slot roles that the coordinator provides. It is the set that the
    /// manifest declares, which is the one authored source.
    fn cluster_provides(&self) -> (r: Vec<String>)
        ensures
            is_role_set(names(r@), names(self.declared().provides@)),
    {
        role_set(&self.manifest().provides)
    }

    /// The key/value primitive, if there is one.
    fn key_value_store(&self) -> (r: Option<Self::Kv>)
        default_ensures
            r is None,
    {
        None
    }

    /// The messaging primitive, if there is one.
    fn pub_sub(&self) -> (r: Option<Self::Bus>)
        default_ensures
            r is None,
    {
        None
    }

    /// The lease primitive, if there is one.
    fn lease(&self) -> (r: Option<Self::Leases>)
        default_ensures
            r is None,
    {
        None
    }

    /// The change feed, if there is one.
    fn watch(&self) -> (r: Option<Self::Changes>)
        default_ensures
            r is None,
    {
        None
    }

    /// What is known of this node.
    fn node_info(&self) -> (r: ClusterNodeInfo)
        ensures
            r.node_id@ == self.view_of_node().node,
            is_timestamp(r.started_at@),
    ;

    /// The peers as this node sees them.
    fn list_peers(&self) -> (r: Vec<ClusterPeer>)
        ensures
            forall|i: int| 0 <= i < r.len() ==> is_timestamp(#[trigger] r@[i].last_seen@),
    ;

    /// The peer events from now on.
    fn watch_peers(&self) -> (r: Self::Peers)
        ensures
            r.feed().is_new(self.view_of_node().peer_events),
    ;

    /// Acquires leadership of a role. Where another node holds it, waits until
    /// that lease lapses.
    fn acquire_leadership(&mut self, role: &str, lease_ttl: Duration) -> (r: Result<
        Self::Held,
        ClusterError,
    >)
        ensures
            final(self).view_of_node().asked_for(
                old(self).view_of_node(),
                LockName::Role(role@),
                lease_ttl@,
                waited_answer(r),
            ),
            r matches Ok(lease) ==> lease.held().is_new(
                final(self).view_of_node().roles,
                lease_ttl@,
            ),
            final(self).view_of_node().calls == old(self).view_of_node().calls.push(
                (BackendCall::Acquire { name: LockName::Role(role@), ttl: lease_ttl@, answer: r }),
            ),
    ;

    /// As [`Self::acquire_leadership`], without waiting: `None` where another node
    /// holds the role. The default waits all the same: it makes one such
    /// acquisition and passes its answer on, so it never answers `None`.
    fn try_acquire_leadership(&mut self, role: &str, lease_ttl: Duration) -> (r: Result<
        Option<Self::Held>,
        ClusterError,
    >)
        ensures
            final(self).view_of_node().asked_for(
                old(self).view_of_node(),
                LockName::Role(role@),
                lease_ttl@,
                tried_answer(r),
            ),
            r matches Ok(Some(lease)) ==> lease.held().is_new(
                final(self).view_of_node().roles,
                lease_ttl@,
            ),
            final(self).view_of_node().calls == old(self).view_of_node().calls.push(
                (BackendCall::TryAcquire {
                    name: LockName::Role(role@),
                    ttl: lease_ttl@,
                    answer: r,
                }),
            ) || waited_once(
                old(self).view_of_node(),
                final(self).view_of_node(),
                LockName::Role(role@),
                lease_ttl@,
                r,
            ),
        default_ensures
            waited_once(
                old(self).view_of_node(),
                final(self).view_of_node(),
                LockName::Role(role@),
                lease_ttl@,
                r,
            ),
    {
        acquired(self.acquire_leadership(role, lease_ttl))
    }

    /// Acquires the lock of a key. Not reentrant.
    fn acquire_lock(&mut self, key: &str, lease_ttl: Duration) -> (r: Result<
        Self::Held,
        ClusterError,
    >)
        ensures
            final(self).view_of_node().asked_for(
                old(self).view_of_node(),
                LockName::Key(key@),
                lease_ttl@,
                waited_answer(r),
            ),
            r matches Ok(lease) ==> lease.held().is_new(
                final(self).view_of_node().locks,
                lease_ttl@,
            ),
            final(self).view_of_node().calls == old(self).view_of_node().calls.push(
                (BackendCall::Acquire { name: LockName::Key(key@), ttl: lease_ttl@, answer: r }),
            ),
    ;

    /// As [`Self::acquire_lock`], without waiting: `None` where another node holds
    /// the lock. The default waits all the same: it makes one such
    /// acquisition and passes its answer on, so it never answers `None`.
    fn try_acquire_lock(&mut self, key: &str, lease_ttl: Duration) -> (r: Result<
        Option<Self::Held>,
        ClusterError,
    >)
        ensures
            final(self).view_of_node().asked_for(
                old(self).view_of_node(),
                LockName::Key(key@),
                lease_ttl@,
                tried_answer(r),
            ),
            r matches Ok(Some(lease)) ==> lease.held().is_new(
                final(self).view_of_node().locks,
                lease_ttl@,
            ),
            final(self).view_of_node().calls == old(self).view_of_node().calls.push(
                (BackendCall::TryAcquire {
                    name: LockName::Key(key@),
                    ttl: lease_ttl@,
                    answer: r,
                }),
            ) || waited_once(
                old(self).view_of_node(),
                final(self).view_of_node(),
                LockName::Key(key@),
                lease_ttl@,
                r,
            ),
        default_ensures
            waited_once(
                old(self).view_of_node(),
                final(self).view_of_node(),
                LockName::Key(key@),
                lease_ttl@,
                r,
            ),
    {
        acquired(self.acquire_lock(key, lease_ttl))
    }

    /// Publishes a notification, with a routing key only to those who subscribed
    /// with it.
    fn publish(&mut self, topic: &str, routing_key: Option<&str>, payload: Bytes) -> (r: Result<
        (),
        ClusterError,
    >)
        ensures
            ({
                let notice = Notice {
                    topic: topic@,
                    routing_key: str_of(routing_key),
                    payload: contents(payload),
                };
                let (before, after) = (old(self).view_of_node(), final(self).view_of_node());
                &&& after.called(before, BackendCall::Publish { notice, answer: r })
                &&& r is Ok ==> after.notices.len() > before.notices.len() && after.notices.last()
                    == notice
            }),
    ;

    /// Subscribes to a topic. Members of one group share its messages; without a
    /// group every subscriber receives every message.
    fn subscribe(&mut self, topic: &str, group: Option<&str>, routing_key: Option<&str>) -> (r:
        Result<Self::Messages, ClusterError>)
        ensures
            final(self).view_of_node().called(
                old(self).view_of_node(),
                (BackendCall::Subscribe {
                    topic: topic@,
                    group: str_of(group),
                    routing_key: str_of(routing_key),
                }),
            ),
            r matches Ok(messages) ==> messages.feed().is_new(
                topic@,
                str_of(group),
                str_of(routing_key),
                final(self).view_of_node().notices,
            ),
    ;

    /// Called when the gateway shuts down. Does nothing by default.
    fn shutdown(&mut self)
        ensures
            *final(self) == *old(self) || final(self).view_of_node().called(
                old(self).view_of_node(),
                BackendCall::Shutdown,
            ),
        default_ensures
            *final(self) == *old(self),
    {
    }
}

/// Fencing tokens grow strictly, over all nodes of a cluster: of two acquisitions of
/// one role or key, through whichever two nodes, the later has the greater token.
pub proof fn law_later_token_is_greater<L>(
    a_before: NodeView<L>,
    a: NodeView<L>,
    b_before: NodeView<L>,
    b: NodeView<L>,
    name: LockName,
    a_ttl: nat,
    b_ttl: nat,
    earlier: Grant,
    later: Grant,
)
    requires
        a.asked_for(a_before, name, a_ttl, LeaseAnswer::Acquired(Some(earlier))),
        b.asked_for(b_before, name, b_ttl, LeaseAnswer::Acquired(Some(later))),
        same_service(a.leases(name), b.leases(name)),
        a.leases(name).history.len() < b.leases(name).history.len(),
    ensures
        earlier.fence < later.fence,
{
    let (x, y) = (a.leases(name), b.leases(name));
    let (i, j) = (x.history.len() - 1, y.history.len() - 1);
    lemma_acquired_name(x, i, earlier);
    lemma_acquired_name(y, j, later);
    law_fence_tokens_grow_across_clients(x, y, earlier, later, i, j);
}

proof fn lemma_acquired_name(client: LeaseClient, i: int, grant: Grant)
    requires
        is_lease_history(client.precision, client.history),
        0 <= i < client.history.len(),
        client.history[i].answer == LeaseAnswer::Acquired(Some(grant)),
    ensures
        client.history[i].op matches LeaseOp::TryAcquire { name, holder, .. } && grant.name == name
            && grant.holder == holder,
{
    assert(client.history[i].is_possible(client.precision));
}

/// Locks and leadership exclude each other: of two acquisitions of one role or key by
/// different nodes, the later came after the grant in force had been released or had
/// lapsed.
pub proof fn law_lock_is_exclusive<L>(
    a_before: NodeView<L>,
    a: NodeView<L>,
    b_before: NodeView<L>,
    b: NodeView<L>,
    name: LockName,
    a_ttl: nat,
    b_ttl: nat,
    earlier: Grant,
    later: Grant,
)
    requires
        a.asked_for(a_before, name, a_ttl, LeaseAnswer::Acquired(Some(earlier))),
        b.asked_for(b_before, name, b_ttl, LeaseAnswer::Acquired(Some(later))),
        a_before.node != b_before.node,
        same_service(a.leases(name), b.leases(name)),
        a.leases(name).history.len() < b.leases(name).history.len(),
    ensures
        exists|m: int|
            a.leases(name).history.len() <= m < b.leases(name).history.len() && ends_grant(
                #[trigger] b.leases(name).history[m],
                text_of_lock(name),
            ),
{
    let (x, y) = (a.leases(name), b.leases(name));
    let (i, j) = (x.history.len() - 1, y.history.len() - 1);
    lemma_acquired_name(x, i, earlier);
    lemma_acquired_name(y, j, later);
    assert(y.history[i] == x.history[i]);
    law_lease_passes_on_only_when_it_ends(y.precision, y.history, earlier, later, i, j);
}

/// A node is told that a role or lock is taken only where another node's grant is in
/// force.
pub proof fn law_refused_only_while_another_holds<L>(
    before: NodeView<L>,
    after: NodeView<L>,
    name: LockName,
    ttl: nat,
)
    requires
        after.asked_for(before, name, ttl, LeaseAnswer::Acquired(None)),
    ensures
        ({
            let moment = after.leases(name).history.last().moment;
            &&& moment.pre.holder_at(text_of_lock(name), moment.at) matches Some(grant)
            &&& grant.holder != before.node
        }),
{
    let history = after.leases(name).history;
    assert(history[history.len() - 1].is_possible(after.leases(name).precision));
}

/// A renewal that succeeds keeps the token, and extends the lease by the TTL it was
/// acquired with, counted from now or from its expiry.
pub proof fn law_renewal_extends_lease(before: HeldLease, after: HeldLease)
    requires
        after.renewed(before, Ok(())),
    ensures
        ({
            let moment = after.service.history.last().moment;
            let precision = after.service.precision;
            &&& after.grant.fence == before.grant.fence
            &&& moment.at + before.ttl - precision.early <= after.grant.expires_at
            &&& moment.pre.holder_at(before.grant.name, moment.at) matches Some(grant)
            &&& grant.holder == before.grant.holder
            &&& after.grant.expires_at <= grant.expires_at + before.ttl + precision.late
        }),
{
    let history = after.service.history;
    assert(history[history.len() - 1].is_possible(after.service.precision));
}

/// A lease that was released successfully is free to the next acquirer.
pub proof fn law_released_lock_is_free(before: HeldLease, after: HeldLease)
    requires
        after.after_release(before, Ok(())),
    ensures
        ({
            let moment = after.service.history.last().moment;
            moment.post.holder_at(before.grant.name, moment.at) matches Some(current)
                ==> current.holder != before.grant.holder || current.fence != before.grant.fence
        }),
{
    let history = after.service.history;
    assert(history[history.len() - 1].is_possible(after.service.precision));
    law_released_lease_is_free(after.service.precision, history.last().moment, before.grant);
}

/// What a subscriber receives was published: the coordinator accepted it after the
/// subscription was made, on its topic and with its routing key. `notices` is what any
/// node knows of what was accepted.
pub proof fn law_delivered_notice_was_published(feed: NoticeFeed, notices: Seq<Notice>, i: int)
    requires
        feed.is_sound(),
        one_log(feed.notices, notices),
        0 <= i < feed.handed.len(),
        feed.handed[i].member == feed.member,
    ensures
        ({
            let place = feed.handed[i].place;
            let all = longer(feed.notices, notices);
            &&& feed.since <= place < all.len()
            &&& all[place] == feed.notices[place]
            &&& is_routed_to(all[place], feed.topic, feed.routing_key)
        }),
{
    lemma_one_log(feed.notices, notices);
}

/// Subscribers of one group share its notifications: none is handed to two of them.
pub proof fn law_group_shares_notices(a: NoticeFeed, b: NoticeFeed, i: int, j: int)
    requires
        a.is_sound(),
        b.is_sound(),
        share_group(a, b),
        0 <= i < a.handed.len(),
        0 <= j < b.handed.len(),
        a.handed[i].member == a.member,
        b.handed[j].member == b.member,
    ensures
        a.handed[i].place != b.handed[j].place,
{
    lemma_one_log(a.handed, b.handed);
    let all = longer(a.handed, b.handed);
    assert(all[i] == a.handed[i]);
    assert(all[j] == b.handed[j]);
}

/// An acquisition that waited and succeeded is one that got the lease, that very one;
/// a failure stays the same failure. So what is acquired is never missing.
pub proof fn law_acquired_keeps_lease_and_error<L>(r: Result<L, ClusterError>)
    ensures
        match (r, spec_acquired(r)) {
            (Ok(lease), Ok(Some(same))) => same == lease,
            (Err(e), Err(same)) => same == e,
            _ => false,
        },
{
}

/// What is said of a message is all that there is to say of it.
pub proof fn law_message_view_leaves_nothing_out(message: PublishedMessage)
    ensures
        message@.topic == message.topic@,
        message@.routing_key is None == message.routing_key is None,
        message.routing_key matches Some(key) ==> message@.routing_key == Some(key@),
        message@.payload == contents(message.payload),
        message@.from_node == message.from_node@,
{
}

} // verus!
