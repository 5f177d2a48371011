//! The failure vocabulary that every cluster surface shares.

use vstd::prelude::*;
use vstd::string::*;

verus! {

/// Failure modes of every cluster surface in this crate: the four primitives
/// ([`crate::KeyValueStore`], [`crate::PubSub`], [`crate::Lease`],
/// [`crate::Watch`]) and the coordinator ([`crate::ClusterBackend`]).
///
/// Backends translate their native errors into one of these variants; the
/// variant tells the caller whether to retry, surface or give up.
#[derive(Debug, Clone, PartialEq, Eq)]
pub enum ClusterError {
    /// The key does not exist.
    NotFound { key: String },
    /// A compare-and-swap saw another holder or fence token than expected.
    CasConflict { key: String, reason: String },
    /// The backend rejected the request because of a precondition: an expired
    /// TTL, a lost lease, a value too large.
    Precondition { reason: String },
    /// The backend cannot be reached. Generally worth a retry.
    BackendUnavailable { reason: String },
    /// The backend cannot carry out this operation at all.
    Unsupported { reason: String },
    /// A leader-only operation was asked of a node that does not lead the role.
    NotLeader { role: String },
    /// The lease expired between acquisition and use, or went to another node.
    LeaseExpired,
    /// A lock key, topic or role is malformed.
    InvalidReference { message: String },
    /// The operation did not finish in time.
    Timeout,
    /// The backend is draining or shutting down.
    Shutdown,
    /// An internal invariant was violated: a bug, not the environment.
    Internal { reason: String },
}

impl ClusterError {
    /// The metrics label of the variant.
    pub open spec fn spec_kind_label(self) -> Seq<char> {
        match self {
            ClusterError::NotFound { .. } => "not_found"@,
            ClusterError::CasConflict { .. } => "cas_conflict"@,
            ClusterError::Precondition { .. } => "precondition"@,
            ClusterError::BackendUnavailable { .. } => "backend_unavailable"@,
            ClusterError::Unsupported { .. } => "unsupported"@,
            ClusterError::NotLeader { .. } => "not_leader"@,
            ClusterError::LeaseExpired => "lease_expired"@,
            ClusterError::InvalidReference { .. } => "invalid_reference"@,
            ClusterError::Timeout => "timeout"@,
            ClusterError::Shutdown => "shutdown"@,
            ClusterError::Internal { .. } => "internal"@,
        }
    }

    /// The text that is shown for the error.
    pub open spec fn spec_display(self) -> Seq<char> {
        match self {
            ClusterError::NotFound { key } => "cluster: key not found: "@ + key@,
            ClusterError::CasConflict { key, reason } => "cluster: cas conflict on `"@ + key@
                + "`: "@ + reason@,
            ClusterError::Precondition { reason } => "cluster: precondition failed: "@ + reason@,
            ClusterError::BackendUnavailable { reason } => "cluster: backend unavailable: "@
                + reason@,
            ClusterError::Unsupported { reason } => "cluster: unsupported operation: "@ + reason@,
            ClusterError::NotLeader { role } => "cluster: not leader for role '"@ + role@ + "'"@,
            ClusterError::LeaseExpired => "cluster: lease expired"@,
            ClusterError::InvalidReference { message } => "cluster: invalid reference: "@
                + message@,
            ClusterError::Timeout => "cluster: operation timed out"@,
            ClusterError::Shutdown => "cluster: backend shutting down"@,
            ClusterError::Internal { reason } => "cluster: internal: "@ + reason@,
        }
    }

    /// The number of the variant, in order of declaration.
    pub open spec fn variant(self) -> nat {
        match self {
            ClusterError::NotFound { .. } => 0,
            ClusterError::CasConflict { .. } => 1,
            ClusterError::Precondition { .. } => 2,
            ClusterError::BackendUnavailable { .. } => 3,
            ClusterError::Unsupported { .. } => 4,
            ClusterError::NotLeader { .. } => 5,
            ClusterError::LeaseExpired => 6,
            ClusterError::InvalidReference { .. } => 7,
            ClusterError::Timeout => 8,
            ClusterError::Shutdown => 9,
            ClusterError::Internal { .. } => 10,
        }
    }

    /// Whether the failure leaves open what the backend would have answered: it was
    /// not reached, did not answer in time, or broke down.
    pub open spec fn is_outage(self) -> bool {
        ||| self is BackendUnavailable
        ||| self is Timeout
        ||| self is Shutdown
        ||| self is Internal
    }

    /// Bounded metrics label.
    #[must_use]
    pub fn kind_label(&self) -> (r: &'static str)
        ensures
            r@ == self.spec_kind_label(),
    {
        match self {
            ClusterError::NotFound { .. } => "not_found",
            ClusterError::CasConflict { .. } => "cas_conflict",
            ClusterError::Precondition { .. } => "precondition",
            ClusterError::BackendUnavailable { .. } => "backend_unavailable",
            ClusterError::Unsupported { .. } => "unsupported",
            ClusterError::NotLeader { .. } => "not_leader",
            ClusterError::LeaseExpired => "lease_expired",
            ClusterError::InvalidReference { .. } => "invalid_reference",
            ClusterError::Timeout => "timeout",
            ClusterError::Shutdown => "shutdown",
            ClusterError::Internal { .. } => "internal",
        }
    }

    /// The text that is shown for the error.
    pub fn to_string(&self) -> (r: String)
        ensures
            r@ == self.spec_display(),
    {
        match self {
            ClusterError::NotFound { key } => joined("cluster: key not found: ", key),
            ClusterError::CasConflict { key, reason } => {
                joined("cluster: cas conflict on `", key).concat("`: ").concat(reason.as_str())
            },
            ClusterError::Precondition { reason } => {
                joined("cluster: precondition failed: ", reason)
            },
            ClusterError::BackendUnavailable { reason } => {
                joined("cluster: backend unavailable: ", reason)
            },
            ClusterError::Unsupported { reason } => {
                joined("cluster: unsupported operation: ", reason)
            },
            ClusterError::NotLeader { role } => {
                joined("cluster: not leader for role '", role).concat("'")
            },
            ClusterError::LeaseExpired => "cluster: lease expired".to_owned(),
            ClusterError::InvalidReference { message } => {
                joined("cluster: invalid reference: ", message)
            },
            ClusterError::Timeout => "cluster: operation timed out".to_owned(),
            ClusterError::Shutdown => "cluster: backend shutting down".to_owned(),
            ClusterError::Internal { reason } => joined("cluster: internal: ", reason),
        }
    }
}

/// `head` followed by `tail`.
fn joined(head: &str, tail: &String) -> (r: String)
    ensures
        r@ == head@ + tail@,
{
    head.to_owned().concat(tail.as_str())
}

/// Whether `part` occurs in `whole`.
pub open spec fn mentions(whole: Seq<char>, part: Seq<char>) -> bool {
    exists|i: int|
        0 <= i <= whole.len() - part.len() && #[trigger] whole.subrange(i, i + part.len()) == part
}

/// The detail that an error carries, as far as it carries one.
pub open spec fn details(e: ClusterError) -> Seq<Seq<char>> {
    match e {
        ClusterError::NotFound { key } => seq![key@],
        ClusterError::CasConflict { key, reason } => seq![key@, reason@],
        ClusterError::Precondition { reason } => seq![reason@],
        ClusterError::BackendUnavailable { reason } => seq![reason@],
        ClusterError::Unsupported { reason } => seq![reason@],
        ClusterError::NotLeader { role } => seq![role@],
        ClusterError::LeaseExpired => seq![],
        ClusterError::InvalidReference { message } => seq![message@],
        ClusterError::Timeout => seq![],
        ClusterError::Shutdown => seq![],
        ClusterError::Internal { reason } => seq![reason@],
    }
}

/// The text shown for an error mentions every detail that the error carries.
pub proof fn law_display_mentions_details(e: ClusterError, i: int)
    requires
        0 <= i < details(e).len(),
    ensures
        mentions(e.spec_display(), details(e)[i]),
{
    let whole = e.spec_display();
    let part = details(e)[i];
    let start = match e {
        ClusterError::NotFound { .. } => "cluster: key not found: "@.len(),
        ClusterError::CasConflict { key, .. } => if i == 0 {
            "cluster: cas conflict on `"@.len()
        } else {
            "cluster: cas conflict on `"@.len() + key@.len() + "`: "@.len()
        },
        ClusterError::Precondition { .. } => "cluster: precondition failed: "@.len(),
        ClusterError::BackendUnavailable { .. } => "cluster: backend unavailable: "@.len(),
        ClusterError::Unsupported { .. } => "cluster: unsupported operation: "@.len(),
        ClusterError::NotLeader { .. } => "cluster: not leader for role '"@.len(),
        ClusterError::InvalidReference { .. } => "cluster: invalid reference: "@.len(),
        _ => "cluster: internal: "@.len(),
    };
    assert(whole.subrange(start as int, start as int + part.len()) =~= part);
}

/// Labels tell the variants apart: two errors have the same label exactly when
/// they are of the same variant.
pub proof fn law_kind_label_identifies_variant(a: ClusterError, b: ClusterError)
    ensures
        (a.spec_kind_label() == b.spec_kind_label()) == (a.variant() == b.variant()),
{
    reveal_strlit("not_found");
    reveal_strlit("cas_conflict");
    reveal_strlit("precondition");
    reveal_strlit("backend_unavailable");
    reveal_strlit("unsupported");
    reveal_strlit("not_leader");
    reveal_strlit("lease_expired");
    reveal_strlit("invalid_reference");
    reveal_strlit("timeout");
    reveal_strlit("shutdown");
    reveal_strlit("internal");
    let x = a.spec_kind_label();
    let y = b.spec_kind_label();
    if x == y {
        assert(x.len() == y.len());
        assert(x[0] == y[0]);
        assert(x[2] == y[2]);
        assert(x[3] == y[3]);
    }
}

/// What is shown around the details of an error depends on its variant alone.
pub proof fn law_display_frames_details(a: ClusterError, b: ClusterError)
    requires
        a.variant() == b.variant(),
    ensures
        details(a).len() == details(b).len(),
        details(a).len() == 0 ==> a.spec_display() == b.spec_display(),
        details(a).len() == 1 ==> exists|head: Seq<char>, tail: Seq<char>|
            a.spec_display() == #[trigger] (head + details(a)[0] + tail) && b.spec_display() == head
                + details(b)[0] + tail,
        details(a).len() == 2 ==> exists|head: Seq<char>, between: Seq<char>|
            a.spec_display() == #[trigger] (head + details(a)[0] + between) + details(a)[1]
                && b.spec_display() == head + details(b)[0] + between + details(b)[1],
        details(a).len() <= 2,
{
    let head = match a {
        ClusterError::NotFound { .. } => "cluster: key not found: "@,
        ClusterError::CasConflict { .. } => "cluster: cas conflict on `"@,
        ClusterError::Precondition { .. } => "cluster: precondition failed: "@,
        ClusterError::BackendUnavailable { .. } => "cluster: backend unavailable: "@,
        ClusterError::Unsupported { .. } => "cluster: unsupported operation: "@,
        ClusterError::NotLeader { .. } => "cluster: not leader for role '"@,
        ClusterError::InvalidReference { .. } => "cluster: invalid reference: "@,
        _ => "cluster: internal: "@,
    };
    if details(a).len() == 1 {
        let tail = if a is NotLeader {
            "'"@
        } else {
            Seq::<char>::empty()
        };
        assert(a.spec_display() =~= head + details(a)[0] + tail);
        assert(b.spec_display() =~= head + details(b)[0] + tail);
    } else if details(a).len() == 2 {
        assert(a.spec_display() =~= (head + details(a)[0] + "`: "@) + details(a)[1]);
        assert(b.spec_display() =~= (head + details(b)[0] + "`: "@) + details(b)[1]);
    }
}

/// The details of an error are all that it carries: two errors of one variant with the
/// same details say the same.
pub proof fn law_details_are_all(a: ClusterError, b: ClusterError)
    requires
        a.variant() == b.variant(),
        details(a) == details(b),
    ensures
        a.spec_display() == b.spec_display(),
        a.spec_kind_label() == b.spec_kind_label(),
{
    if details(a).len() > 0 {
        assert(details(a)[0] == details(b)[0]);
    }
    if details(a).len() > 1 {
        assert(details(a)[1] == details(b)[1]);
    }
}

} // verus!
