//! Carrying out the steps of a run on a store that answers at once.

use vstd::prelude::*;

use super::script::{answers_op, burst_view, KvAction, KvActionView, KvReply, KvReplyView};
use crate::error::ClusterError;
use crate::key_value::{counted, KeyValueStore};
use crate::kv_model::{takes_turns, KvAnswer, KvHandle, KvOp};
use crate::time::{span_of, Duration};

verus! {

/// Whether `after` is the client of `before` once it has asked for `op` again and
/// again, and got these answers.
pub open spec fn answered_in_turn(
    before: KvHandle,
    op: KvOp,
    answers: Seq<KvAnswer>,
    after: KvHandle,
) -> bool {
    &&& after.calls == before.calls + answers.map_values(|answer: KvAnswer| (op, answer))
    &&& exists|handles: Seq<KvHandle>| #[trigger]
        takes_turns(handles, op, answers) && handles[0] == before && handles.last() == after
}

/// Carries out an action on a store. A burst goes one increment after the other.
/// Opening a store and waiting are no operations on one: they leave it alone.
///
/// The operation that the action names is put to the store, and no other; the reply
/// is what came back, failures included.
pub fn perform<S: KeyValueStore>(action: &KvAction, store: &mut S) -> (r: KvReply)
    ensures
        match action@ {
            KvActionView::Open => r@ is Ready && *final(store) == *old(store),
            KvActionView::Pause(_) => r@ is Ready && *final(store) == *old(store),
            KvActionView::Call(op) => {
                &&& r@ matches KvReplyView::Answer(answer)
                &&& final(store).handle().answered(old(store).handle(), op, answer)
                &&& answers_op(op, answer)
            },
            KvActionView::Burst(op, callers) => {
                &&& r@ matches KvReplyView::Burst(answers)
                &&& answers.len() == callers
                &&& answered_in_turn(old(store).handle(), op, answers, final(store).handle())
                &&& forall|i: int| 0 <= i < callers ==> answers_op(op, #[trigger] answers[i])
            },
        },
{
    match action {
        KvAction::Open => KvReply::Ready,
        KvAction::Pause { .. } => KvReply::Ready,
        KvAction::Get { key } => KvReply::Fetched(store.get(*key)),
        KvAction::Put { key, value, ttl } => {
            KvReply::Stored(store.put(*key, value.clone(), *ttl))
        },
        KvAction::PutIfAbsent { key, value, ttl } => {
            KvReply::Claimed(store.put_if_absent(*key, value.clone(), *ttl))
        },
        KvAction::Delete { key } => KvReply::Deleted(store.delete(*key)),
        KvAction::ListPrefix { prefix, limit } => {
            KvReply::Listed(store.list_prefix(*prefix, *limit))
        },
        KvAction::Expire { key, ttl } => KvReply::Expired(store.expire(*key, *ttl)),
        KvAction::Incr { key, delta, ttl } => KvReply::Counted(store.incr(*key, *delta, *ttl)),
        KvAction::IncrBurst { key, delta, ttl, callers } => {
            KvReply::Burst(incr_in_turn(store, *key, *delta, *ttl, *callers))
        },
    }
}

/// Increments a counter `callers` times, one after the other.
fn incr_in_turn<S: KeyValueStore>(
    store: &mut S,
    key: &'static str,
    delta: i64,
    ttl: Option<Duration>,
    callers: usize,
) -> (r: Vec<Result<i64, ClusterError>>)
    ensures
        r.len() == callers,
        answered_in_turn(
            old(store).handle(),
            KvOp::Incr { key: key@, delta: delta as int, ttl: span_of(ttl) },
            burst_view(r@),
            final(store).handle(),
        ),
{
    let ghost op = KvOp::Incr { key: key@, delta: delta as int, ttl: span_of(ttl) };
    let ghost first = store.handle();
    let ghost mut handles: Seq<KvHandle> = seq![first];
    let mut results: Vec<Result<i64, ClusterError>> = Vec::new();
    proof {
        assert(burst_view(results@) =~= Seq::<KvAnswer>::empty());
        assert(first.calls =~= first.calls + burst_view(results@).map_values(
            |answer: KvAnswer| (op, answer),
        ));
    }
    while results.len() < callers
        invariant
            results.len() <= callers,
            op == (KvOp::Incr { key: key@, delta: delta as int, ttl: span_of(ttl) }),
            takes_turns(handles, op, burst_view(results@)),
            handles[0] == first,
            handles.last() == store.handle(),
            store.handle().calls == first.calls + burst_view(results@).map_values(
                |answer: KvAnswer| (op, answer),
            ),
        decreases callers - results.len(),
    {
        let ghost before = results@;
        let ghost earlier = handles;
        let result = store.incr(key, delta, ttl);
        results.push(result);
        proof {
            handles = handles.push(store.handle());
            let answers = burst_view(results@);
            assert(answers =~= burst_view(before).push(counted(result)));
            assert(answers.map_values(|answer: KvAnswer| (op, answer)) =~= burst_view(
                before,
            ).map_values(|answer: KvAnswer| (op, answer)).push((op, counted(result))));
            assert forall|i: int, j: int|
                #![trigger handles[i], handles[j]]
                0 <= i < answers.len() && j == i + 1 implies handles[j].answered(
                handles[i],
                op,
                answers[i],
            ) by {
                if j < earlier.len() {
                    assert(earlier[i] == handles[i] && earlier[j] == handles[j]);
                }
            }
        }
    }
    results
}

} // verus!
