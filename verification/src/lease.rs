//! Split-brain-safe distributed mutual exclusion.
//!
//! A lease is a lock that is held for a limited time, with a fence token that
//! grows with every acquisition. Holders show the token to the resources they
//! write to, so that a slow holder cannot write past a newer one.

use vstd::prelude::*;

use crate::error::ClusterError;
use crate::time::{Duration, Timestamp};

verus! {

/// A token minted on every acquisition of a lease. Of two tokens for one name the
/// later is the greater, also across crashes and restarts.
#[derive(Debug, Clone, Copy, PartialEq, Eq, PartialOrd, Ord, Hash, Structural)]
pub struct FenceToken(pub u64);

/// A snapshot of an active lease. Holders renew it before it expires, and release
/// it when they are done; one that is dropped lapses by itself.
#[derive(Debug, Clone)]
pub struct LeaseHandle {
    /// The name of the lease, unique in the cluster.
    pub name: String,
    /// Who holds it. Renewing and releasing is for the holder alone.
    pub holder: String,
    /// The fence token of the acquisition.
    pub fence: FenceToken,
    /// The instant after which the lease lapses unless it is renewed.
    pub expires_at: Timestamp,
}

/// How closely a lease service keeps to the time asked for: a grant may end at most
/// `early` before, and at most `late` after it.
pub ghost struct TtlPrecision {
    pub early: nat,
    pub late: nat,
}

/// A lease as it was granted. Times are nanoseconds since the Unix epoch.
pub ghost struct Grant {
    pub name: Seq<char>,
    pub holder: Seq<char>,
    pub fence: nat,
    pub expires_at: int,
}

impl View for LeaseHandle {
    type V = Grant;

    open spec fn view(&self) -> Grant {
        Grant {
            name: self.name@,
            holder: self.holder@,
            fence: self.fence.0 as nat,
            expires_at: self.expires_at.unix_nanos as int,
        }
    }
}

/// What a lease service knows: the last grant of each name that was not released,
/// and the greatest token minted for each name.
pub ghost struct LeaseState {
    pub grants: Map<Seq<char>, Grant>,
    pub minted: Map<Seq<char>, nat>,
}

impl LeaseState {
    /// The grant in force for `name` at `at`.
    pub open spec fn holder_at(self, name: Seq<char>, at: int) -> Option<Grant> {
        if self.grants.contains_key(name) && at <= self.grants[name].expires_at {
            Some(self.grants[name])
        } else {
            None
        }
    }

    /// Whether `fence` is greater than every token minted for `name`.
    pub open spec fn is_fresh(self, name: Seq<char>, fence: nat) -> bool {
        self.minted.contains_key(name) ==> fence > self.minted[name]
    }

    /// The state once `grant` is made.
    pub open spec fn granted(self, grant: Grant) -> LeaseState {
        LeaseState {
            grants: self.grants.insert(grant.name, grant),
            minted: self.minted.insert(grant.name, grant.fence),
        }
    }

    /// The state once `grant` stands in for the one of its name.
    pub open spec fn extended(self, grant: Grant) -> LeaseState {
        LeaseState { grants: self.grants.insert(grant.name, grant), ..self }
    }

    /// The state once nobody holds `name`.
    pub open spec fn released(self, name: Seq<char>) -> LeaseState {
        LeaseState { grants: self.grants.remove(name), ..self }
    }
}

/// An operation on a lease service.
pub ghost enum LeaseOp {
    TryAcquire { name: Seq<char>, holder: Seq<char>, ttl: nat },
    Renew { lease: Grant, ttl: nat },
    Release { lease: Grant },
    CurrentHolder { name: Seq<char> },
}

/// The answer to an operation.
pub ghost enum LeaseAnswer {
    Acquired(Option<Grant>),
    Renewed(Grant),
    Released,
    HeldBy(Option<Grant>),
    /// The caller does not hold the lease under the token it named.
    Conflict,
    /// The lease is no longer active.
    Lapsed,
    /// The service did not say.
    Failed(ClusterError),
}

/// Whether an operation, taking effect at `at` on `pre`, may give `answer` and
/// leave `post`.
///
/// Acquiring succeeds unless another holder has a grant in force, and mints a new
/// token each time, also where the holder only refreshes its own grant. Renewing
/// keeps the token, and extends the lease by the TTL, counted from now or from its
/// expiry. Releasing is answered in the same way once the grant has lapsed; where it
/// gave way to a later one, that may be a conflict. It never ends another holder's
/// grant.
pub open spec fn lease_takes_effect(
    precision: TtlPrecision,
    pre: LeaseState,
    at: int,
    op: LeaseOp,
    answer: LeaseAnswer,
    post: LeaseState,
) -> bool {
    match op {
        LeaseOp::TryAcquire { name, holder, ttl } => match pre.holder_at(name, at) {
            Some(grant) if grant.holder != holder => answer == LeaseAnswer::Acquired(None) && post
                == pre,
            _ => {
                &&& answer matches LeaseAnswer::Acquired(Some(grant))
                &&& grant.name == name
                &&& grant.holder == holder
                &&& pre.is_fresh(name, grant.fence)
                &&& at + ttl - precision.early <= grant.expires_at <= at + ttl + precision.late
                &&& post == pre.granted(grant)
            },
        },
        LeaseOp::Renew { lease, ttl } => match pre.holder_at(lease.name, at) {
            None => (answer is Lapsed || answer is Conflict) && post == pre,
            Some(grant) if grant.holder != lease.holder || grant.fence != lease.fence => answer
                is Conflict && post == pre,
            Some(grant) => {
                &&& answer matches LeaseAnswer::Renewed(renewed)
                &&& renewed.name == lease.name
                &&& renewed.holder == grant.holder
                &&& renewed.fence == grant.fence
                &&& at + ttl - precision.early <= renewed.expires_at <= grant.expires_at + ttl
                    + precision.late
                &&& post == pre.extended(renewed)
            },
        },
        LeaseOp::Release { lease } => match pre.holder_at(lease.name, at) {
            None => answer is Released && (post == pre || post == pre.released(lease.name)),
            Some(grant) if grant.holder != lease.holder => (answer is Conflict || answer
                is Released) && post == pre,
            Some(grant) if grant.fence != lease.fence => {
                ||| answer is Conflict && post == pre
                ||| answer is Released && (post == pre || post == pre.released(lease.name))
            },
            Some(_) => answer is Released && post == pre.released(lease.name),
        },
        LeaseOp::CurrentHolder { name } => answer == LeaseAnswer::HeldBy(
            pre.holder_at(name, at),
        ) && post == pre,
    }
}

/// The instant at which an operation takes effect.
pub ghost struct LeaseMoment {
    pub pre: LeaseState,
    pub at: int,
    pub post: LeaseState,
}

/// One operation in the history of a lease service.
pub ghost struct LeaseRecord {
    pub op: LeaseOp,
    pub answer: LeaseAnswer,
    pub moment: LeaseMoment,
}

impl LeaseRecord {
    /// Whether the operation may have gone so. One that failed changed nothing, or
    /// took effect all the same.
    pub open spec fn is_possible(self, precision: TtlPrecision) -> bool {
        let (pre, at, post) = (self.moment.pre, self.moment.at, self.moment.post);
        match self.answer {
            LeaseAnswer::Failed(_) => {
                ||| post == pre
                ||| exists|answer: LeaseAnswer| #[trigger]
                    lease_takes_effect(precision, pre, at, self.op, answer, post)
            },
            _ => lease_takes_effect(precision, pre, at, self.op, self.answer, post),
        }
    }
}

/// Whether `history` is what a lease service may have gone through, with every
/// client in it, and across every crash and restart.
pub open spec fn is_lease_history(precision: TtlPrecision, history: Seq<LeaseRecord>) -> bool {
    &&& forall|i: int|
        #![trigger history[i]]
        0 <= i < history.len() ==> history[i].is_possible(precision)
    &&& forall|i: int, j: int|
        #![trigger history[i], history[j]]
        0 <= i < history.len() && j == i + 1 && j < history.len() ==> history[j].moment.pre
            == history[i].moment.post && history[j].moment.at >= history[i].moment.at
}

/// What one client stands in with the lease service.
pub ghost struct LeaseClient {
    /// How closely the service keeps to the time asked for.
    pub precision: TtlPrecision,
    /// What the service has gone through, up to the client's last operation.
    pub history: Seq<LeaseRecord>,
}

impl LeaseClient {
    /// Whether this is the client one operation after `before`, where it asked for
    /// `op` and got `answer`. Others may have come in between, and nothing that went
    /// before is forgotten.
    pub open spec fn answered(self, before: LeaseClient, op: LeaseOp, answer: LeaseAnswer) -> bool {
        &&& self.precision == before.precision
        &&& is_lease_history(self.precision, self.history)
        &&& before.history.is_prefix_of(self.history)
        &&& self.history.len() > before.history.len()
        &&& self.history.last().op == op
        &&& self.history.last().answer == answer
    }
}

/// Whether two clients are clients of one service: what one of them knows of its
/// history is what the other knows, or the beginning of it.
pub open spec fn same_service(a: LeaseClient, b: LeaseClient) -> bool {
    &&& a.precision == b.precision
    &&& a.history.is_prefix_of(b.history) || b.history.is_prefix_of(a.history)
}

/// The history of a service as far as either of two of its clients knows it.
pub open spec fn joint_lease_history(a: LeaseClient, b: LeaseClient) -> Seq<LeaseRecord> {
    if a.history.len() <= b.history.len() {
        b.history
    } else {
        a.history
    }
}

/// Whether every token minted in `before` is still accounted for in `after`.
pub open spec fn minted_only_grows(before: LeaseState, after: LeaseState) -> bool {
    forall|name: Seq<char>| #[trigger]
        before.minted.contains_key(name) ==> after.minted.contains_key(name)
            && before.minted[name] <= after.minted[name]
}

/// What is said of a lease that may be missing.
pub open spec fn grant_view(lease: Option<LeaseHandle>) -> Option<Grant> {
    match lease {
        Some(handle) => Some(handle@),
        None => None,
    }
}

/// The answer that the result of an acquisition stands for.
pub open spec fn acquired_answer(r: Result<Option<LeaseHandle>, ClusterError>) -> LeaseAnswer {
    match r {
        Ok(lease) => LeaseAnswer::Acquired(grant_view(lease)),
        Err(e) => LeaseAnswer::Failed(e),
    }
}

/// The answer that the result of a renewal stands for.
pub open spec fn renewed_answer(r: Result<LeaseHandle, ClusterError>) -> LeaseAnswer {
    match r {
        Ok(lease) => LeaseAnswer::Renewed(lease@),
        Err(ClusterError::CasConflict { .. }) => LeaseAnswer::Conflict,
        Err(ClusterError::LeaseExpired) => LeaseAnswer::Lapsed,
        Err(e) => LeaseAnswer::Failed(e),
    }
}

/// The answer that the result of a release stands for.
pub open spec fn released_answer(r: Result<(), ClusterError>) -> LeaseAnswer {
    match r {
        Ok(_) => LeaseAnswer::Released,
        Err(ClusterError::CasConflict { .. }) => LeaseAnswer::Conflict,
        Err(e) => LeaseAnswer::Failed(e),
    }
}

/// The answer that the result of an inspection stands for.
pub open spec fn holder_answer(r: Result<Option<LeaseHandle>, ClusterError>) -> LeaseAnswer {
    match r {
        Ok(lease) => LeaseAnswer::HeldBy(grant_view(lease)),
        Err(e) => LeaseAnswer::Failed(e),
    }
}

/// Coordinated leases.
///
/// A value of the implementing type is one client of the service. Each operation
/// takes its place in the history of the service, as [`LeaseClient::answered`] says.
/// One that fails otherwise than with a conflict, or because the lease has lapsed,
/// may or may not have taken effect.
pub trait Lease: Sized {
    /// What the client stands in with the service, up to its last operation.
    open spec fn client(&self) -> LeaseClient {
        arbitrary()
    }

    /// Acquires `name` for `holder`, for `ttl`, or refreshes the holder's own
    /// grant; `None` where another holder has it.
    fn try_acquire(&mut self, name: &str, holder: &str, ttl: Duration) -> (r: Result<
        Option<LeaseHandle>,
        ClusterError,
    >)
        ensures
            final(self).client().answered(
                old(self).client(),
                LeaseOp::TryAcquire { name: name@, holder: holder@, ttl: ttl@ },
                acquired_answer(r),
            ),
    ;

    /// Renews an active lease. Another holder's, and one that was acquired anew,
    /// is refused with [`ClusterError::CasConflict`], one that has lapsed with that
    /// or with [`ClusterError::LeaseExpired`].
    fn renew(&mut self, lease: &LeaseHandle, ttl: Duration) -> (r: Result<
        LeaseHandle,
        ClusterError,
    >)
        ensures
            final(self).client().answered(
                old(self).client(),
                LeaseOp::Renew { lease: lease@, ttl: ttl@ },
                renewed_answer(r),
            ),
    ;

    /// Releases an active lease. Releasing twice is harmless. Where another holder
    /// has it, or it was acquired anew, the answer may be
    /// [`ClusterError::CasConflict`].
    fn release(&mut self, lease: &LeaseHandle) -> (r: Result<(), ClusterError>)
        ensures
            final(self).client().answered(
                old(self).client(),
                LeaseOp::Release { lease: lease@ },
                released_answer(r),
            ),
    ;

    /// The current holder of `name`, without acquiring it; `None` where there is
    /// none or the lease has lapsed.
    fn current_holder(&mut self, name: &str) -> (r: Result<Option<LeaseHandle>, ClusterError>)
        ensures
            final(self).client().answered(
                old(self).client(),
                LeaseOp::CurrentHolder { name: name@ },
                holder_answer(r),
            ),
    ;
}

/// Two clients of one service take part in one history, of which each knows a
/// beginning. So whatever holds of a history holds of what they do together.
pub proof fn law_lease_clients_share_one_history(a: LeaseClient, b: LeaseClient)
    requires
        is_lease_history(a.precision, a.history),
        is_lease_history(b.precision, b.history),
        same_service(a, b),
    ensures
        is_lease_history(a.precision, joint_lease_history(a, b)),
        a.history.is_prefix_of(joint_lease_history(a, b)),
        b.history.is_prefix_of(joint_lease_history(a, b)),
{
    if a.history.len() == b.history.len() {
        assert(a.history =~= b.history);
    }
}

proof fn lemma_minted_grows(precision: TtlPrecision, history: Seq<LeaseRecord>, i: int, j: int)
    requires
        is_lease_history(precision, history),
        0 <= i < j < history.len(),
    ensures
        minted_only_grows(history[i].moment.post, history[j].moment.pre),
    decreases j - i,
{
    let before = history[j - 1];
    assert(history[j].moment.pre == before.moment.post);
    if i < j - 1 {
        lemma_minted_grows(precision, history, i, j - 1);
        assert(before.is_possible(precision));
        assert(minted_only_grows(before.moment.pre, before.moment.post));
    }
}

/// Fence tokens grow strictly: of two acquisitions of one name, by whichever
/// holders, the later has the greater token. A resource that has seen the later
/// token can tell that a write with the earlier one is stale.
pub proof fn law_fence_tokens_grow(
    precision: TtlPrecision,
    history: Seq<LeaseRecord>,
    earlier: Grant,
    later: Grant,
    i: int,
    j: int,
)
    requires
        is_lease_history(precision, history),
        0 <= i < j < history.len(),
        history[i].op is TryAcquire,
        history[i].answer == LeaseAnswer::Acquired(Some(earlier)),
        history[j].op is TryAcquire,
        history[j].answer == LeaseAnswer::Acquired(Some(later)),
        earlier.name == later.name,
    ensures
        earlier.fence < later.fence,
{
    lemma_minted_grows(precision, history, i, j);
    assert(history[i].moment.post.minted.contains_key(earlier.name));
}

/// Fence tokens grow strictly over all clients of a service: of two acquisitions of
/// one name, through whichever two clients, the later has the greater token.
pub proof fn law_fence_tokens_grow_across_clients(
    a: LeaseClient,
    b: LeaseClient,
    earlier: Grant,
    later: Grant,
    i: int,
    j: int,
)
    requires
        is_lease_history(a.precision, a.history),
        is_lease_history(b.precision, b.history),
        same_service(a, b),
        0 <= i < a.history.len(),
        0 <= j < b.history.len(),
        i < j,
        a.history[i].op is TryAcquire,
        a.history[i].answer == LeaseAnswer::Acquired(Some(earlier)),
        b.history[j].op is TryAcquire,
        b.history[j].answer == LeaseAnswer::Acquired(Some(later)),
        earlier.name == later.name,
    ensures
        earlier.fence < later.fence,
{
    law_lease_clients_share_one_history(a, b);
    let history = joint_lease_history(a, b);
    assert(history[i] == a.history[i]);
    assert(history[j] == b.history[j]);
    law_fence_tokens_grow(a.precision, history, earlier, later, i, j);
}

/// Whether the operation ends the grant of `name`: it releases it, or finds that it
/// has lapsed.
pub open spec fn ends_grant(record: LeaseRecord, name: Seq<char>) -> bool {
    let (pre, at, post) = (record.moment.pre, record.moment.at, record.moment.post);
    &&& pre.grants.contains_key(name)
    &&& {
        ||| record.op is Release && !post.grants.contains_key(name)
        ||| at > pre.grants[name].expires_at
    }
}

/// A name stays with its holder until its grant ends.
proof fn lemma_holder_stays(
    precision: TtlPrecision,
    history: Seq<LeaseRecord>,
    name: Seq<char>,
    holder: Seq<char>,
    i: int,
    j: int,
)
    requires
        is_lease_history(precision, history),
        0 <= i <= j < history.len(),
        history[i].moment.post.grants.contains_key(name),
        history[i].moment.post.grants[name].holder == holder,
        forall|m: int| i < m <= j ==> !ends_grant(#[trigger] history[m], name),
    ensures
        history[j].moment.post.grants.contains_key(name),
        history[j].moment.post.grants[name].holder == holder,
    decreases j - i,
{
    if i < j {
        lemma_holder_stays(precision, history, name, holder, i, j - 1);
        let before = history[j - 1];
        let record = history[j];
        assert(record.moment.pre == before.moment.post);
        assert(record.is_possible(precision));
        assert(!ends_grant(record, name));
    }
}

/// A lease is held by one holder at a time, whoever asks for it: of two acquisitions
/// of one name by different holders, the later came after the grant in force had
/// been released or had lapsed.
pub proof fn law_lease_passes_on_only_when_it_ends(
    precision: TtlPrecision,
    history: Seq<LeaseRecord>,
    earlier: Grant,
    later: Grant,
    i: int,
    j: int,
)
    requires
        is_lease_history(precision, history),
        0 <= i < j < history.len(),
        history[i].op is TryAcquire,
        history[i].answer == LeaseAnswer::Acquired(Some(earlier)),
        history[j].op is TryAcquire,
        history[j].answer == LeaseAnswer::Acquired(Some(later)),
        earlier.name == later.name,
        earlier.holder != later.holder,
    ensures
        exists|m: int| i < m <= j && ends_grant(#[trigger] history[m], earlier.name),
{
    let name = earlier.name;
    if forall|m: int| i < m <= j ==> !ends_grant(#[trigger] history[m], name) {
        assert(history[i].is_possible(precision));
        lemma_holder_stays(precision, history, name, earlier.holder, i, j - 1);
        assert(history[j].moment.pre == history[j - 1].moment.post);
        assert(history[j].is_possible(precision));
        assert(!ends_grant(history[j], name));
        assert(false);
    }
}

/// A lease passes to another holder only once the grant before it has lapsed or
/// was released.
pub proof fn law_lease_is_exclusive(
    precision: TtlPrecision,
    moment: LeaseMoment,
    name: Seq<char>,
    holder: Seq<char>,
    ttl: nat,
    grant: Grant,
)
    requires
        lease_takes_effect(
            precision,
            moment.pre,
            moment.at,
            LeaseOp::TryAcquire { name, holder, ttl },
            LeaseAnswer::Acquired(Some(grant)),
            moment.post,
        ),
    ensures
        moment.pre.holder_at(name, moment.at) matches Some(current) ==> current.holder == holder,
        moment.post.grants[name] == grant,
        grant.holder == holder,
{
}

/// Nobody but the holder can end or extend a grant that is in force: releasing or
/// renewing for somebody else leaves it as it is.
pub proof fn law_only_holder_changes_grant(
    precision: TtlPrecision,
    moment: LeaseMoment,
    op: LeaseOp,
    answer: LeaseAnswer,
    lease: Grant,
    current: Grant,
)
    requires
        lease_takes_effect(precision, moment.pre, moment.at, op, answer, moment.post),
        op == (LeaseOp::Release { lease }) || (op matches LeaseOp::Renew { lease: l, .. } && l
            == lease),
        moment.pre.holder_at(lease.name, moment.at) == Some(current),
        current.holder != lease.holder,
    ensures
        moment.post == moment.pre,
        op is Renew ==> answer is Conflict,
{
}

/// A lease that was released is free: the grant is no longer in force, and the next
/// to ask for the name gets it at once, unless it has gone to another holder since.
pub proof fn law_released_lease_is_free(
    precision: TtlPrecision,
    moment: LeaseMoment,
    lease: Grant,
)
    requires
        lease_takes_effect(
            precision,
            moment.pre,
            moment.at,
            LeaseOp::Release { lease },
            LeaseAnswer::Released,
            moment.post,
        ),
    ensures
        moment.post.holder_at(lease.name, moment.at) matches Some(current) ==> current.holder
            != lease.holder || current.fence != lease.fence,
        moment.pre.holder_at(lease.name, moment.at) matches Some(current) && current.holder
            == lease.holder && current.fence == lease.fence ==> moment.post.holder_at(
            lease.name,
            moment.at,
        ) is None,
{
}

/// Releasing is idempotent: a release that follows another of the same lease, with
/// nothing in between, is answered in the same way and finds nothing to end. Left
/// out is a lease that another has taken over, or that was acquired anew.
pub proof fn law_release_is_idempotent(
    precision: TtlPrecision,
    first: LeaseMoment,
    second: LeaseMoment,
    lease: Grant,
    answer: LeaseAnswer,
)
    requires
        first.pre.holder_at(lease.name, first.at) matches Some(current) ==> current.holder
            == lease.holder && current.fence == lease.fence,
        lease_takes_effect(
            precision,
            first.pre,
            first.at,
            LeaseOp::Release { lease },
            LeaseAnswer::Released,
            first.post,
        ),
        second.pre == first.post,
        second.at >= first.at,
        lease_takes_effect(
            precision,
            second.pre,
            second.at,
            LeaseOp::Release { lease },
            answer,
            second.post,
        ),
    ensures
        answer is Released,
        second.pre.holder_at(lease.name, second.at) is None,
        second.post.holder_at(lease.name, second.at) is None,
        first.pre.holder_at(lease.name, first.at) is Some ==> second.post == second.pre,
{
    assert(first.pre.grants.remove(lease.name).remove(lease.name) =~= first.pre.grants.remove(
        lease.name,
    ));
}

} // verus!
