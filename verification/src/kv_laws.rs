//! What follows of a store's history from the way single operations work.

use vstd::prelude::*;

use crate::key_value::{counter_bytes, law_counter_reads_back};
use crate::kv_model::{
    counter_base, counter_sum, exceeds, frees, is_history, joint_history, same_store, wins, writes,
    KvAnswer, KvHandle, KvMoment, KvOp, KvRecord, KvTerms,
};

verus! {

/// A key stays in the store until an operation frees it.
proof fn lemma_key_stays(
    terms: KvTerms,
    history: Seq<KvRecord>,
    key: Seq<char>,
    i: int,
    j: int,
)
    requires
        is_history(terms, history),
        0 <= i <= j < history.len(),
        history[i].moment.post.contains_key(key),
        forall|m: int| i < m <= j ==> !frees(#[trigger] history[m], key),
    ensures
        history[j].moment.post.contains_key(key),
    decreases j - i,
{
    if i < j {
        lemma_key_stays(terms, history, key, i, j - 1);
        let before = history[j - 1];
        let record = history[j];
        assert(record.moment.pre == before.moment.post);
        assert(!frees(record, key));
        assert(record.moment.live.contains_key(key));
    }
}

/// Claims have a single winner: of two claims of one key that both won, the later
/// came after the key was deleted or its TTL had run out.
pub proof fn law_claim_has_single_winner(
    terms: KvTerms,
    history: Seq<KvRecord>,
    key: Seq<char>,
    i: int,
    j: int,
)
    requires
        is_history(terms, history),
        0 <= i < j < history.len(),
        wins(history[i], key),
        wins(history[j], key),
    ensures
        exists|m: int| i < m <= j && frees(#[trigger] history[m], key),
{
    if forall|m: int| i < m <= j ==> !frees(#[trigger] history[m], key) {
        assert(history[i].moment.post.contains_key(key));
        lemma_key_stays(terms, history, key, i, j - 1);
        assert(history[j].moment.pre == history[j - 1].moment.post);
        assert(!frees(history[j], key));
        assert(false);
    }
}

/// Two clients of one store take part in one history, of which each knows a
/// beginning. So whatever holds of a history holds of what they do together.
pub proof fn law_clients_share_one_history(a: KvHandle, b: KvHandle)
    requires
        a.is_sound(),
        b.is_sound(),
        same_store(a, b),
    ensures
        is_history(a.terms, joint_history(a, b)),
        a.history.is_prefix_of(joint_history(a, b)),
        b.history.is_prefix_of(joint_history(a, b)),
{
    if a.history.len() == b.history.len() {
        assert(a.history =~= b.history);
    }
}

/// Claims have a single winner on any number of replicas: of two claims of one key
/// that both won, through whichever two clients of the store, the later came after
/// the key was deleted or its TTL had run out.
pub proof fn law_claim_has_single_winner_across_clients(
    a: KvHandle,
    b: KvHandle,
    key: Seq<char>,
    i: int,
    j: int,
)
    requires
        a.is_sound(),
        b.is_sound(),
        same_store(a, b),
        0 <= i < a.history.len(),
        0 <= j < b.history.len(),
        i < j,
        wins(a.history[i], key),
        wins(b.history[j], key),
    ensures
        exists|m: int| i < m <= j && frees(#[trigger] joint_history(a, b)[m], key),
{
    law_clients_share_one_history(a, b);
    let history = joint_history(a, b);
    assert(history[i] == a.history[i]);
    assert(history[j] == b.history[j]);
    law_claim_has_single_winner(a.terms, history, key, i, j);
}

/// A client whose claim of a key has won, and who claims it again and wins again,
/// whatever it does in between, can tell that the key was deleted or that its TTL
/// had run out in the meantime.
pub proof fn law_client_wins_twice_only_when_key_was_free(
    first: KvHandle,
    won: KvHandle,
    later: KvHandle,
    won_again: KvHandle,
    claim: KvOp,
    reclaim: KvOp,
    key: Seq<char>,
)
    requires
        won.answered(first, claim, KvAnswer::Claimed(true)),
        later.is_since(won),
        won_again.answered(later, reclaim, KvAnswer::Claimed(true)),
        claim matches KvOp::PutIfAbsent { key: k, .. } && k == key,
        reclaim matches KvOp::PutIfAbsent { key: k, .. } && k == key,
    ensures
        exists|m: int|
            won.history.len() <= m < won_again.history.len() && frees(
                #[trigger] won_again.history[m],
                key,
            ),
{
    let i = won.history.len() - 1;
    let j = won_again.history.len() - 1;
    assert(won_again.history[i] == later.history[i]);
    assert(later.history[i] == won.history[i]);
    law_claim_has_single_winner(won.terms, won_again.history, key, i, j);
}

/// A claim that loses changes nothing, and one that wins stores its value.
pub proof fn law_claim_stores_only_when_won(
    terms: KvTerms,
    moment: KvMoment,
    key: Seq<char>,
    bytes: Seq<u8>,
    ttl: Option<nat>,
    won: bool,
)
    requires
        moment.performs(terms, KvOp::PutIfAbsent { key, bytes, ttl }, KvAnswer::Claimed(won)),
    ensures
        !won ==> moment.post == moment.live && moment.post.contains_key(key),
        won ==> !moment.live.contains_key(key) && moment.post.contains_key(key)
            && moment.post[key].bytes == bytes,
{
}

/// What is stored under a key that nobody writes to stays as it is, for as long as
/// its TTL is certain to hold.
proof fn lemma_value_stays(
    terms: KvTerms,
    history: Seq<KvRecord>,
    key: Seq<char>,
    i: int,
    j: int,
)
    requires
        is_history(terms, history),
        0 <= i < j < history.len(),
        forall|m: int| i < m < j ==> !writes(#[trigger] history[m].op, key),
    ensures
        history[i].moment.at <= history[j].moment.at,
        history[j].moment.pre.contains_key(key) ==> history[i].moment.post.contains_key(key)
            && history[j].moment.pre[key] == history[i].moment.post[key],
        history[i].moment.post.contains_key(key) && history[i].moment.post[key].lives(
            history[j].moment.at,
            terms,
        ) ==> history[j].moment.pre.contains_key(key),
    decreases j - i,
{
    let before = history[j - 1].moment;
    let now = history[j].moment;
    assert(now.pre == before.post);
    if i < j - 1 {
        lemma_value_stays(terms, history, key, i, j - 1);
        assert(!writes(history[j - 1].op, key));
        if before.pre.contains_key(key) && before.pre[key].lives(now.at, terms) {
            assert(before.live.contains_key(key));
        }
        if before.live.contains_key(key) {
            assert(before.pre.contains_key(key));
        }
    }
}

/// A read that succeeds gives back what was written last, for as long as its TTL is certain to
/// hold, and nothing once its TTL is certain to have run out. A value without a TTL
/// stays for as long as the backend retains it; where that is until it is deleted, it
/// is read without an expiry.
pub proof fn law_read_gives_back_last_write(
    terms: KvTerms,
    history: Seq<KvRecord>,
    key: Seq<char>,
    i: int,
    j: int,
)
    requires
        is_history(terms, history),
        0 <= i < j < history.len(),
        history[i].moment.post.contains_key(key),
        forall|m: int| i < m < j ==> !writes(#[trigger] history[m].op, key),
        history[j].op == (KvOp::Get { key }),
        !(history[j].answer is Failed),
    ensures
        ({
            let stored = history[i].moment.post[key];
            &&& stored.lives(history[j].moment.at, terms) ==> {
                &&& history[j].answer matches KvAnswer::Fetched(Some(entry))
                &&& entry.bytes == stored.bytes
                &&& stored.ttl is None && terms.retention is None ==> entry.expires_at is None
            }
            &&& stored.gone(history[j].moment.at, terms) ==> history[j].answer
                == KvAnswer::Fetched(None)
        }),
{
    lemma_value_stays(terms, history, key, i, j);
    let now = history[j].moment;
    if now.live.contains_key(key) {
        assert(now.pre.contains_key(key));
    }
}

/// A write puts its value in the place of whatever was there, and its TTL in the
/// place of any earlier one.
pub proof fn law_write_replaces_value_and_ttl(
    terms: KvTerms,
    moment: KvMoment,
    key: Seq<char>,
    bytes: Seq<u8>,
    ttl: Option<nat>,
    answer: KvAnswer,
)
    requires
        moment.performs(terms, KvOp::Put { key, bytes, ttl }, answer),
    ensures
        moment.post.contains_key(key),
        moment.post[key].bytes == bytes,
        moment.post[key].ttl == ttl,
        moment.post[key].armed_at == moment.at,
        forall|k: Seq<char>|
            k != key ==> (#[trigger] moment.post.contains_key(k) == moment.live.contains_key(k))
                && (moment.post.contains_key(k) ==> moment.post[k] == moment.live[k]),
{
}

/// Deletion is idempotent: after it, and until somebody writes the key again, the
/// key reads as missing and a further deletion reports that it found nothing.
pub proof fn law_deleted_key_stays_deleted(
    terms: KvTerms,
    history: Seq<KvRecord>,
    key: Seq<char>,
    i: int,
    j: int,
)
    requires
        is_history(terms, history),
        0 <= i < j < history.len(),
        history[i].op == (KvOp::Delete { key }),
        history[i].answer is Deleted,
        !(history[j].answer is Failed),
        forall|m: int| i < m < j ==> !writes(#[trigger] history[m].op, key),
    ensures
        history[j].op == (KvOp::Get { key }) ==> history[j].answer == KvAnswer::Fetched(None),
        history[j].op == (KvOp::Delete { key }) ==> history[j].answer == KvAnswer::Deleted(false),
{
    lemma_value_stays(terms, history, key, i, j);
    assert(!history[i].moment.post.contains_key(key));
    let now = history[j].moment;
    if now.live.contains_key(key) {
        assert(now.pre.contains_key(key));
    }
}

/// Setting a TTL leaves the value as it is.
pub proof fn law_expire_keeps_value(
    terms: KvTerms,
    moment: KvMoment,
    key: Seq<char>,
    ttl: Option<nat>,
    existed: bool,
)
    requires
        moment.performs(terms, KvOp::Expire { key, ttl }, KvAnswer::Expired(existed)),
    ensures
        moment.post.dom() == moment.live.dom(),
        forall|k: Seq<char>| #[trigger]
            moment.post.contains_key(k) ==> moment.post[k].bytes == moment.live[k].bytes,
        existed ==> moment.post[key].ttl == ttl && moment.post[key].armed_at == moment.at,
{
    assert(moment.post.dom() =~= moment.live.dom());
}

/// An increment that is refused changes nothing; one that is not stores the new
/// value in ASCII base 10, and arms its TTL anew where it has one.
pub proof fn law_increment_stores_sum_or_nothing(
    terms: KvTerms,
    moment: KvMoment,
    key: Seq<char>,
    delta: int,
    ttl: Option<nat>,
    answer: KvAnswer,
)
    requires
        moment.performs(terms, KvOp::Incr { key, delta, ttl }, answer),
    ensures
        match counter_sum(moment.live, key, delta) {
            None => answer is Failed && moment.post == moment.live,
            Some(sum) => {
                &&& answer == KvAnswer::Counted(sum)
                &&& moment.post.contains_key(key)
                &&& moment.post[key].bytes == counter_bytes(sum)
                &&& ttl is Some ==> moment.post[key].ttl == ttl && moment.post[key].armed_at
                    == moment.at
            },
        },
{
}

/// An operation on a key or with a value beyond the limits of the backend is answered
/// with a failure, `Precondition` unless the backend cannot be asked, and changes
/// nothing.
pub proof fn law_oversized_is_turned_down(terms: KvTerms, record: KvRecord)
    requires
        record.is_possible(terms),
        exceeds(terms, record.op),
    ensures
        record.answer matches KvAnswer::Failed(e) && (e is Precondition || e.is_outage()),
        record.moment.post == record.moment.live,
{
}

/// An increment of an entry that is no counter, or beyond the range of a counter, is
/// always answered with a failure, and changes nothing.
pub proof fn law_refused_increment_changes_nothing(
    terms: KvTerms,
    record: KvRecord,
    key: Seq<char>,
    delta: int,
    ttl: Option<nat>,
)
    requires
        record.is_possible(terms),
        record.op == (KvOp::Incr { key, delta, ttl }),
        counter_sum(record.moment.live, key, delta) is None,
    ensures
        record.answer is Failed,
        record.moment.post == record.moment.live,
{
}

/// The sum of all increments of `key` in a history.
pub open spec fn total_of(history: Seq<KvRecord>, key: Seq<char>) -> int
    decreases history.len(),
{
    if history.len() == 0 {
        0
    } else {
        total_of(history.drop_last(), key) + match history.last().op {
            KvOp::Incr { key: k, delta, .. } if k == key => delta,
            _ => 0,
        }
    }
}

/// Whether the operation, where it writes `key`, is an increment that succeeded.
pub open spec fn only_increments(record: KvRecord, key: Seq<char>) -> bool {
    writes(record.op, key) ==> record.op is Incr && record.answer is Counted
}

/// Whether the operation, where it increments `key`, leaves it without a TTL.
pub open spec fn arms_no_ttl(record: KvRecord, key: Seq<char>) -> bool {
    record.op matches KvOp::Incr { key: k, ttl, .. } ==> (k == key ==> ttl is None)
}

/// No increment is lost: where a counter starts from nothing and is only ever
/// incremented, its value is at all times the sum of the increments so far,
/// whoever made them, and each increment answers with that sum. That holds of
/// increments with a TTL until the TTL runs out, and of those without for ever where
/// the backend retains what has none.
pub proof fn law_no_increment_is_lost(
    terms: KvTerms,
    history: Seq<KvRecord>,
    key: Seq<char>,
)
    requires
        history.len() > 0,
        is_history(terms, history),
        !history[0].moment.pre.contains_key(key),
        forall|i: int|
            #![trigger history[i]]
            0 <= i < history.len() ==> only_increments(history[i], key),
        (forall|i: int|
            #![trigger history[i]]
            0 <= i < history.len() ==> !frees(history[i], key)) || (terms.retention is None
            && forall|i: int|
            #![trigger history[i]]
            0 <= i < history.len() ==> arms_no_ttl(history[i], key)),
    ensures
        counter_base(history.last().moment.post, key) == Some(total_of(history, key)),
        writes(history.last().op, key) ==> history.last().answer == KvAnswer::Counted(
            total_of(history, key),
        ),
        (forall|i: int|
            #![trigger history[i]]
            0 <= i < history.len() ==> arms_no_ttl(history[i], key))
            && history.last().moment.post.contains_key(key)
            ==> history.last().moment.post[key].ttl is None,
    decreases history.len(),
{
    let last = history.last();
    let moment = last.moment;
    let earlier = history.drop_last();
    assert(last == history[history.len() - 1]);
    assert(only_increments(last, key));
    assert(last.is_possible(terms));
    if earlier.len() > 0 {
        assert forall|i: int| #![trigger earlier[i]] 0 <= i < earlier.len() implies earlier[i]
            == history[i] by {}
        law_no_increment_is_lost(terms, earlier, key);
        assert(moment.pre == history[history.len() - 2].moment.post);
        assert(earlier.last() == history[history.len() - 2]);
        if moment.pre.contains_key(key) {
            if frees(last, key) {
                assert(moment.pre[key].lives(moment.at, terms));
            }
            assert(moment.live.contains_key(key));
        }
    } else {
        assert(total_of(earlier, key) == 0);
    }
    if moment.live.contains_key(key) {
        assert(moment.pre.contains_key(key));
    }
    if writes(last.op, key) {
        if let Some(sum) = counter_sum(moment.live, key, last.op->Incr_delta) {
            law_counter_reads_back(sum as i64);
        }
    }
}

} // verus!
