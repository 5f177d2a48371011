//! What a key/value store does, one atomic operation at a time.
//!
//! A store is a map from keys to stored values, each with the moment at which its
//! TTL was last armed. An operation takes effect at one instant: entries whose
//! TTL has run out by then are dropped first, and what is left decides the answer
//! and the new contents. An operation that fails took effect in that way or not at
//! all. Every client of a shared store, on any replica, takes part in one history.

use vstd::prelude::*;

use crate::error::ClusterError;
use crate::key_value::{counter_bytes, counter_value, EntryView};

verus! {

/// A value in the store. Times are nanoseconds.
pub ghost struct StoredValue {
    pub bytes: Seq<u8>,
    /// When the TTL was last armed.
    pub armed_at: int,
    /// How long the value lasts from then; `None` without a TTL.
    pub ttl: Option<nat>,
}

/// The contents of a store.
pub type KvState = Map<Seq<char>, StoredValue>;

/// What the contract leaves to a backend.
pub ghost struct KvTerms {
    /// How long before its TTL has elapsed a value may go, at most.
    pub early: nat,
    /// How long beyond its TTL a value stays, less than this.
    pub late: nat,
    /// How long a value without a TTL is retained; `None` where it stays until it is
    /// deleted.
    pub retention: Option<nat>,
    /// How many keys may be under a prefix for a listing to be complete.
    pub page: nat,
    /// How many bytes of UTF-8 a key may have; `None` without a limit.
    pub max_key: Option<nat>,
    /// How many bytes a value may have; `None` without a limit.
    pub max_value: Option<nat>,
}

impl KvTerms {
    /// Whether a value without a TTL is certain to stay for `span`.
    pub open spec fn retains_for(self, span: nat) -> bool {
        self.retention matches Some(retention) ==> span < retention
    }
}

impl StoredValue {
    /// The value is certain to be there at `at`.
    pub open spec fn lives(self, at: int, terms: KvTerms) -> bool {
        match self.ttl {
            Some(ttl) => at < self.armed_at + ttl - terms.early,
            None => terms.retention matches Some(retention) ==> at < self.armed_at + retention,
        }
    }

    /// The value is certain to have gone by `at`.
    pub open spec fn gone(self, at: int, terms: KvTerms) -> bool {
        self.ttl matches Some(ttl) && at >= self.armed_at + ttl + terms.late
    }

    /// Whether `entry` is how a reader may see the value: its bytes, and no
    /// expiry where it has no TTL and is retained until it is deleted.
    pub open spec fn reads_as(self, terms: KvTerms, entry: EntryView) -> bool {
        &&& entry.bytes == self.bytes
        &&& self.ttl is None && terms.retention is None ==> entry.expires_at is None
    }
}

/// What is left of `pre` at `at`: everything that is certain to be there, nothing
/// that is certain to have gone.
pub open spec fn settles(
    terms: KvTerms,
    pre: KvState,
    at: int,
    live: KvState,
) -> bool {
    &&& forall|k: Seq<char>| #[trigger]
        live.contains_key(k) ==> pre.contains_key(k) && live[k] == pre[k] && !pre[k].gone(
            at,
            terms,
        )
    &&& forall|k: Seq<char>| #[trigger]
        pre.contains_key(k) && pre[k].lives(at, terms) ==> live.contains_key(k)
}

/// An operation on a store.
pub ghost enum KvOp {
    Get { key: Seq<char> },
    Put { key: Seq<char>, bytes: Seq<u8>, ttl: Option<nat> },
    PutIfAbsent { key: Seq<char>, bytes: Seq<u8>, ttl: Option<nat> },
    Delete { key: Seq<char> },
    ListPrefix { prefix: Seq<char>, limit: nat },
    Expire { key: Seq<char>, ttl: Option<nat> },
    Incr { key: Seq<char>, delta: int, ttl: Option<nat> },
}

/// The answer to an operation.
pub ghost enum KvAnswer {
    Fetched(Option<EntryView>),
    Stored,
    Claimed(bool),
    Deleted(bool),
    Listed(Seq<(Seq<char>, EntryView)>),
    Expired(bool),
    Counted(int),
    Failed(ClusterError),
}

/// The keys of `live` that begin with `prefix`.
pub open spec fn keys_under(live: KvState, prefix: Seq<char>) -> Set<Seq<char>> {
    live.dom().filter(|k: Seq<char>| prefix.is_prefix_of(k))
}

/// Whether `listing` is a listing of the keys under `prefix`: no key twice, none
/// from elsewhere, each with its value, and at most `limit` of them. It is complete
/// where neither `limit` nor the backend's page is exceeded, and may stop short of
/// `limit` where there are more keys than a page. The order is free.
pub open spec fn lists(
    terms: KvTerms,
    live: KvState,
    prefix: Seq<char>,
    limit: nat,
    listing: Seq<(Seq<char>, EntryView)>,
) -> bool {
    let keys = Seq::new(listing.len(), |i: int| listing[i].0);
    &&& keys.no_duplicates()
    &&& forall|i: int|
        #![trigger listing[i]]
        0 <= i < listing.len() ==> live.contains_key(listing[i].0) && prefix.is_prefix_of(
            listing[i].0,
        ) && live[listing[i].0].reads_as(terms, listing[i].1)
    &&& listing.len() <= limit
    &&& keys_under(live, prefix).len() <= limit && keys_under(live, prefix).len() <= terms.page
        ==> keys.to_set() == keys_under(live, prefix)
}

/// The value from which an increment of `key` starts: 0 where there is no entry,
/// `None` where the entry is no counter.
pub open spec fn counter_base(live: KvState, key: Seq<char>) -> Option<int> {
    if live.contains_key(key) {
        counter_value(live[key].bytes)
    } else {
        Some(0)
    }
}

/// The value of the counter after an increment, where it is one and the sum is
/// in the range of `i64`.
pub open spec fn counter_sum(live: KvState, key: Seq<char>, delta: int) -> Option<int> {
    match counter_base(live, key) {
        Some(base) if i64::MIN <= base + delta <= i64::MAX => Some(base + delta),
        _ => None,
    }
}

/// Whether `op` is for a longer key or a larger value than the backend takes.
pub open spec fn exceeds(terms: KvTerms, op: KvOp) -> bool {
    let key = match op {
        KvOp::Get { key } => Some(key),
        KvOp::Put { key, .. } => Some(key),
        KvOp::PutIfAbsent { key, .. } => Some(key),
        KvOp::Delete { key } => Some(key),
        KvOp::ListPrefix { .. } => None,
        KvOp::Expire { key, .. } => Some(key),
        KvOp::Incr { key, .. } => Some(key),
    };
    let value = match op {
        KvOp::Put { bytes, .. } => Some(bytes),
        KvOp::PutIfAbsent { bytes, .. } => Some(bytes),
        _ => None,
    };
    ||| key is Some && terms.max_key is Some && vstd::utf8::encode_utf8(key->0).len()
        > terms.max_key->0
    ||| value is Some && terms.max_value is Some && value->0.len() > terms.max_value->0
}

/// Whether an operation, taking effect at `at` on the contents `live`, may give
/// `answer` and leave `post`.
///
/// An increment of an entry that is no counter, or beyond the range of `i64`,
/// fails and changes nothing. An increment with a TTL arms it anew; one without
/// leaves open what becomes of an earlier TTL.
pub open spec fn takes_effect(
    terms: KvTerms,
    live: KvState,
    at: int,
    op: KvOp,
    answer: KvAnswer,
    post: KvState,
) -> bool {
    match op {
        KvOp::Get { key } => {
            &&& post == live
            &&& answer matches KvAnswer::Fetched(found)
            &&& match found {
                Some(entry) => live.contains_key(key) && live[key].reads_as(terms, entry),
                None => !live.contains_key(key),
            }
        },
        KvOp::Put { key, bytes, ttl } => {
            &&& post == live.insert(key, StoredValue { bytes, armed_at: at, ttl })
            &&& answer is Stored
        },
        KvOp::PutIfAbsent { key, bytes, ttl } => {
            &&& answer == KvAnswer::Claimed(!live.contains_key(key))
            &&& post == if live.contains_key(key) {
                live
            } else {
                live.insert(key, StoredValue { bytes, armed_at: at, ttl })
            }
        },
        KvOp::Delete { key } => {
            &&& answer == KvAnswer::Deleted(live.contains_key(key))
            &&& post == live.remove(key)
        },
        KvOp::ListPrefix { prefix, limit } => {
            &&& post == live
            &&& answer matches KvAnswer::Listed(listing)
            &&& lists(terms, live, prefix, limit, listing)
        },
        KvOp::Expire { key, ttl } => {
            &&& answer == KvAnswer::Expired(live.contains_key(key))
            &&& post == if live.contains_key(key) {
                live.insert(key, StoredValue { bytes: live[key].bytes, armed_at: at, ttl })
            } else {
                live
            }
        },
        KvOp::Incr { key, delta, ttl } => match counter_sum(live, key, delta) {
            None => answer is Failed && post == live,
            Some(sum) => {
                &&& answer == KvAnswer::Counted(sum)
                &&& {
                    ||| post == live.insert(
                        key,
                        StoredValue { bytes: counter_bytes(sum), armed_at: at, ttl },
                    )
                    ||| ttl is None && live.contains_key(key) && post == live.insert(
                        key,
                        StoredValue { bytes: counter_bytes(sum), ..live[key] },
                    )
                }
            },
        },
    }
}

/// The instant at which an operation takes effect: the contents it finds, what
/// of them is left at that time, and the contents it leaves.
pub ghost struct KvMoment {
    pub pre: KvState,
    pub at: int,
    pub live: KvState,
    pub post: KvState,
}

impl KvMoment {
    /// Whether this may be the moment at which `op` was answered with `answer`.
    pub open spec fn performs(self, terms: KvTerms, op: KvOp, answer: KvAnswer) -> bool {
        &&& settles(terms, self.pre, self.at, self.live)
        &&& takes_effect(terms, self.live, self.at, op, answer, self.post)
    }

    /// Whether this may be the moment at which `op` failed: it changed nothing, or
    /// took effect all the same.
    pub open spec fn fails(self, terms: KvTerms, op: KvOp) -> bool {
        &&& settles(terms, self.pre, self.at, self.live)
        &&& {
            ||| self.post == self.live
            ||| exists|answer: KvAnswer| #[trigger]
                takes_effect(terms, self.live, self.at, op, answer, self.post)
        }
    }
}

/// One operation in the history of a store.
pub ghost struct KvRecord {
    pub op: KvOp,
    pub answer: KvAnswer,
    pub moment: KvMoment,
}

impl KvRecord {
    /// Whether the operation may have gone so. One that exceeds the limits of the
    /// backend is turned down and changes nothing.
    pub open spec fn is_possible(self, terms: KvTerms) -> bool {
        &&& match self.answer {
            KvAnswer::Failed(_) => self.moment.fails(terms, self.op),
            _ => self.moment.performs(terms, self.op, self.answer),
        }
        &&& exceeds(terms, self.op) ==> {
            &&& self.answer matches KvAnswer::Failed(e)
            &&& e is Precondition || e.is_outage()
            &&& self.moment.post == self.moment.live
        }
    }
}

/// Whether `history` is what a store may have gone through: each operation finds
/// what the one before it left, and none takes effect earlier than the one
/// before it.
pub open spec fn is_history(terms: KvTerms, history: Seq<KvRecord>) -> bool {
    &&& forall|i: int|
        #![trigger history[i]]
        0 <= i < history.len() ==> history[i].is_possible(terms)
    &&& forall|i: int, j: int|
        #![trigger history[i], history[j]]
        0 <= i < history.len() && j == i + 1 && j < history.len() ==> history[j].moment.pre
            == history[i].moment.post && history[j].moment.at >= history[i].moment.at
}

/// What one client stands in with the store it operates on.
pub ghost struct KvHandle {
    /// What the contract leaves to the backend.
    pub terms: KvTerms,
    /// Whether nobody else writes to the store, and no operation takes effect once
    /// it has failed.
    pub isolated: bool,
    /// What the store held at first.
    pub initial: KvState,
    /// What the store has gone through, with every client in it, up to the client's
    /// last operation.
    pub history: Seq<KvRecord>,
    /// What the client asked for, and the answers it got, in order.
    pub calls: Seq<(KvOp, KvAnswer)>,
}

impl KvHandle {
    /// What the store holds after the history.
    pub open spec fn held(self) -> KvState {
        if self.history.len() == 0 {
            self.initial
        } else {
            self.history.last().moment.post
        }
    }

    /// Whether the store may have gone through the history.
    pub open spec fn is_sound(self) -> bool {
        &&& is_history(self.terms, self.history)
        &&& self.history.len() > 0 ==> self.history[0].moment.pre == self.initial
    }

    /// Whether this is the same client at the time of `before`, or later.
    pub open spec fn is_since(self, before: KvHandle) -> bool {
        &&& self.terms == before.terms
        &&& self.isolated == before.isolated
        &&& self.initial == before.initial
        &&& before.history.is_prefix_of(self.history)
        &&& before.calls.is_prefix_of(self.calls)
    }

    /// Whether this is the client one operation after `before`, where it asked for
    /// `op` and got `answer`. The operation is the last in the history, and in an
    /// isolated store the only one that was added to it.
    pub open spec fn answered(self, before: KvHandle, op: KvOp, answer: KvAnswer) -> bool {
        &&& self.is_sound()
        &&& self.is_since(before)
        &&& self.history.len() > before.history.len()
        &&& self.history.last().op == op
        &&& self.history.last().answer == answer
        &&& self.isolated ==> self.history.len() == before.history.len() + 1
        &&& self.calls == before.calls.push((op, answer))
    }
}

/// Whether two clients, on whichever replicas, operate on one store: what one of
/// them knows of its history is what the other knows, or the beginning of it.
pub open spec fn same_store(a: KvHandle, b: KvHandle) -> bool {
    &&& a.terms == b.terms
    &&& a.initial == b.initial
    &&& a.history.is_prefix_of(b.history) || b.history.is_prefix_of(a.history)
}

/// The history of a store as far as either of two of its clients knows it.
pub open spec fn joint_history(a: KvHandle, b: KvHandle) -> Seq<KvRecord> {
    if a.history.len() <= b.history.len() {
        b.history
    } else {
        a.history
    }
}

/// Whether `handles` is one client before and after each of a number of calls of
/// `op`, with these answers.
pub open spec fn takes_turns(
    handles: Seq<KvHandle>,
    op: KvOp,
    answers: Seq<KvAnswer>,
) -> bool {
    &&& handles.len() == answers.len() + 1
    &&& forall|i: int, j: int|
        #![trigger handles[i], handles[j]]
        0 <= i < answers.len() && j == i + 1 ==> handles[j].answered(handles[i], op, answers[i])
}

/// Whether `op` may change what is stored under `key`.
pub open spec fn writes(op: KvOp, key: Seq<char>) -> bool {
    match op {
        KvOp::Get { .. } => false,
        KvOp::Put { key: k, .. } => k == key,
        KvOp::PutIfAbsent { key: k, .. } => k == key,
        KvOp::Delete { key: k } => k == key,
        KvOp::ListPrefix { .. } => false,
        KvOp::Expire { key: k, .. } => k == key,
        KvOp::Incr { key: k, .. } => k == key,
    }
}

/// Whether the operation took `key` out of the store, or found that its TTL had
/// run out. A deletion that failed may have done so.
pub open spec fn frees(record: KvRecord, key: Seq<char>) -> bool {
    ||| record.op == KvOp::Delete { key } && (record.answer == KvAnswer::Deleted(true)
        || record.answer is Failed)
    ||| record.moment.pre.contains_key(key) && !record.moment.live.contains_key(key)
}

/// Whether the operation is a claim of `key` that won.
pub open spec fn wins(record: KvRecord, key: Seq<char>) -> bool {
    &&& record.op matches KvOp::PutIfAbsent { key: k, .. }
    &&& k == key
    &&& record.answer == KvAnswer::Claimed(true)
}

} // verus!
