//! A store that does as the model says keeps to the whole battery.

use vstd::prelude::*;

use super::cases::{
    battery, delete_case, expire_case, get_missing_case, incr_accumulates_case, incr_burst_case,
    incr_missing_case, incr_rejects_case, incr_ttl_case, list_prefix_case, overwrite_case,
    put_get_case, single_winner_case, ttl_case,
};
use super::run::{is_whole, law_run_passes_when_every_step_is_kept, KvContractRunView};
use super::script::{
    breach, clashes, first_clash, listed_keys, lists_as_told, text_bytes, KvActionView, KvReplyView,
    KvStepView,
};
use super::KvContractTiming;
use crate::key_value::{counter_bytes, counter_value, law_counter_reads_back, EntryView};
use crate::kv_model::{
    counter_sum, keys_under, lists, takes_turns, KvAnswer, KvHandle, KvMoment, KvOp, KvState,
    KvTerms,
};
use crate::time::{NANOS_PER_MILLI, NANOS_PER_SEC};

verus! {

/// What happened at one step of a run against a store: when it was taken, the
/// contents of the store before and after it, the moment at which each of its
/// operations took effect, their answers in that order, and the reply.
pub ghost struct KvTurn {
    pub at: int,
    pub pre: KvState,
    pub post: KvState,
    pub moments: Seq<KvMoment>,
    pub answers: Seq<KvAnswer>,
    pub reply: KvReplyView,
}

/// How long a step waits.
pub open spec fn wait_of(action: KvActionView) -> nat {
    match action {
        KvActionView::Pause(span) => span,
        _ => 0,
    }
}

/// Whether each of `moments` finds what the one before it left, from `pre` to
/// `post`, and answers `op`.
pub open spec fn runs_through(
    terms: KvTerms,
    op: KvOp,
    pre: KvState,
    moments: Seq<KvMoment>,
    answers: Seq<KvAnswer>,
    post: KvState,
) -> bool
    decreases moments.len(),
{
    if moments.len() == 0 {
        answers.len() == 0 && post == pre
    } else {
        &&& answers.len() == moments.len()
        &&& moments.last().post == post
        &&& moments.last().performs(terms, op, answers.last())
        &&& runs_through(
            terms,
            op,
            pre,
            moments.drop_last(),
            answers.drop_last(),
            moments.last().pre,
        )
    }
}

/// Whether a store that does as the model says may have answered `action` so. The
/// operations of a burst take effect one after the other, all of them within `lag`,
/// and their answers come in any order.
pub open spec fn obeys(
    terms: KvTerms,
    lag: nat,
    action: KvActionView,
    turn: KvTurn,
) -> bool {
    match action {
        KvActionView::Open => turn.reply is Ready && turn.post == KvState::empty(),
        KvActionView::Pause(_) => turn.reply is Ready && turn.post == turn.pre,
        KvActionView::Call(op) => {
            &&& turn.moments.len() == 1
            &&& turn.moments[0].pre == turn.pre
            &&& turn.moments[0].at == turn.at
            &&& turn.moments[0].post == turn.post
            &&& turn.reply matches KvReplyView::Answer(answer)
            &&& turn.moments[0].performs(terms, op, answer)
        },
        KvActionView::Burst(op, callers) => {
            &&& turn.moments.len() == callers
            &&& runs_through(terms, op, turn.pre, turn.moments, turn.answers, turn.post)
            &&& forall|i: int|
                0 <= i < callers ==> turn.at <= #[trigger] turn.moments[i].at <= turn.at + lag
            &&& turn.reply matches KvReplyView::Burst(answers)
            &&& answers.to_multiset() == turn.answers.to_multiset()
        },
    }
}

/// Whether `turns` is a run of `script` against a store that does as the model
/// says, with nobody else writing to it, where each step follows the one before
/// it by at most `lag` more than that one waits.
pub open spec fn is_run(
    terms: KvTerms,
    lag: nat,
    script: Seq<KvStepView>,
    turns: Seq<KvTurn>,
) -> bool {
    &&& turns.len() == script.len()
    &&& forall|i: int|
        #![trigger turns[i]]
        0 <= i < turns.len() ==> obeys(terms, lag, script[i].action, turns[i])
    &&& forall|i: int, j: int|
        #![trigger turns[i], turns[j]]
        0 <= i < turns.len() && j == i + 1 && j < turns.len() ==> {
            let due = turns[i].at + wait_of(script[i].action);
            &&& due <= turns[j].at <= due + lag
            &&& turns[j].pre == turns[i].post
        }
}

/// Whether every reply is as its step demands.
pub open spec fn keeps(script: Seq<KvStepView>, turns: Seq<KvTurn>) -> bool {
    forall|i: int|
        #![trigger turns[i]]
        0 <= i < script.len() ==> breach(script[i], turns[i].reply) is None
}

/// The parts of a run are runs.
proof fn lemma_run_splits(
    terms: KvTerms,
    lag: nat,
    a: Seq<KvStepView>,
    b: Seq<KvStepView>,
    turns: Seq<KvTurn>,
)
    requires
        is_run(terms, lag, a + b, turns),
    ensures
        is_run(terms, lag, a, turns.take(a.len() as int)),
        is_run(terms, lag, b, turns.skip(a.len() as int)),
        keeps(a, turns.take(a.len() as int)) && keeps(b, turns.skip(a.len() as int)) ==> keeps(
            a + b,
            turns,
        ),
{
    let n = a.len() as int;
    let s = a + b;
    let t = turns.take(n);
    let u = turns.skip(n);
    assert forall|i: int| #![trigger t[i]] 0 <= i < t.len() implies obeys(
        terms,
        lag,
        a[i].action,
        t[i],
    ) by {
        assert(t[i] == turns[i] && s[i] == a[i]);
    }
    assert forall|i: int, j: int|
        #![trigger t[i], t[j]]
        0 <= i < t.len() && j == i + 1 && j < t.len() implies {
        let due = t[i].at + wait_of(a[i].action);
        &&& due <= t[j].at <= due + lag
        &&& t[j].pre == t[i].post
    } by {
        assert(t[i] == turns[i] && t[j] == turns[j] && s[i] == a[i]);
    }
    assert forall|i: int| #![trigger u[i]] 0 <= i < u.len() implies obeys(
        terms,
        lag,
        b[i].action,
        u[i],
    ) by {
        assert(u[i] == turns[i + n] && s[i + n] == b[i]);
    }
    assert forall|i: int, j: int|
        #![trigger u[i], u[j]]
        0 <= i < u.len() && j == i + 1 && j < u.len() implies {
        let due = u[i].at + wait_of(b[i].action);
        &&& due <= u[j].at <= due + lag
        &&& u[j].pre == u[i].post
    } by {
        assert(u[i] == turns[i + n] && u[j] == turns[j + n] && s[i + n] == b[i]);
    }
    if keeps(a, t) && keeps(b, u) {
        assert forall|i: int| #![trigger turns[i]] 0 <= i < s.len() implies breach(
            s[i],
            turns[i].reply,
        ) is None by {
            if i < n {
                assert(t[i] == turns[i] && s[i] == a[i]);
            } else {
                assert(u[i - n] == turns[i] && s[i] == b[i - n]);
            }
        }
    }
}

/// A step finds what the one before it left, no earlier than that one was due to
/// end.
proof fn lemma_next_turn(
    terms: KvTerms,
    lag: nat,
    script: Seq<KvStepView>,
    turns: Seq<KvTurn>,
    i: int,
)
    requires
        is_run(terms, lag, script, turns),
        0 < i < script.len(),
    ensures
        obeys(terms, lag, script[i].action, turns[i]),
        turns[i].pre == turns[i - 1].post,
        turns[i - 1].at + wait_of(script[i - 1].action) <= turns[i].at <= turns[i - 1].at + wait_of(
            script[i - 1].action,
        ) + lag,
{
    let before = turns[i - 1];
    let turn = turns[i];
}

proof fn lemma_get_missing(terms: KvTerms, lag: nat, turns: Seq<KvTurn>)
    requires
        is_run(terms, lag, get_missing_case(), turns),
    ensures
        keeps(get_missing_case(), turns),
{
    let t0 = turns[0];
    let t1 = turns[1];
}

proof fn lemma_put_get(terms: KvTerms, lag: nat, turns: Seq<KvTurn>)
    requires
        is_run(terms, lag, put_get_case(), turns),
        terms.retains_for(3 * lag),
    ensures
        keeps(put_get_case(), turns),
{
    let s = put_get_case();
    assert(obeys(terms, lag, s[0].action, turns[0]));
    lemma_next_turn(terms, lag, s, turns, 1);
    lemma_next_turn(terms, lag, s, turns, 2);
    assert(turns[2].pre.contains_key("k"@));
    assert(breach(s[0], turns[0].reply) is None);
    assert(breach(s[1], turns[1].reply) is None);
    assert(breach(s[2], turns[2].reply) is None);
}

proof fn lemma_delete(terms: KvTerms, lag: nat, turns: Seq<KvTurn>)
    requires
        is_run(terms, lag, delete_case(), turns),
        terms.retains_for(3 * lag),
    ensures
        keeps(delete_case(), turns),
{
    let s = delete_case();
    assert(obeys(terms, lag, s[0].action, turns[0]));
    lemma_next_turn(terms, lag, s, turns, 1);
    assert(breach(s[1], turns[1].reply) is None);
    lemma_next_turn(terms, lag, s, turns, 2);
    assert(turns[2].pre.contains_key("k"@));
    assert(breach(s[2], turns[2].reply) is None);
    lemma_next_turn(terms, lag, s, turns, 3);
    assert(breach(s[3], turns[3].reply) is None);
    lemma_next_turn(terms, lag, s, turns, 4);
    assert(breach(s[4], turns[4].reply) is None);
}

proof fn lemma_single_winner(terms: KvTerms, lag: nat, turns: Seq<KvTurn>)
    requires
        is_run(terms, lag, single_winner_case(), turns),
        terms.retains_for(3 * lag),
    ensures
        keeps(single_winner_case(), turns),
{
    let s = single_winner_case();
    assert(obeys(terms, lag, s[0].action, turns[0]));
    lemma_next_turn(terms, lag, s, turns, 1);
    assert(breach(s[1], turns[1].reply) is None);
    lemma_next_turn(terms, lag, s, turns, 2);
    assert(turns[2].pre.contains_key("claim"@));
    assert(breach(s[2], turns[2].reply) is None);
    lemma_next_turn(terms, lag, s, turns, 3);
    assert(turns[3].pre.contains_key("claim"@));
    assert(breach(s[3], turns[3].reply) is None);
    lemma_next_turn(terms, lag, s, turns, 4);
    assert(turns[4].pre.contains_key("claim"@));
    assert(breach(s[4], turns[4].reply) is None);
    lemma_next_turn(terms, lag, s, turns, 5);
    assert(breach(s[5], turns[5].reply) is None);
}

proof fn lemma_expire(terms: KvTerms, lag: nat, turns: Seq<KvTurn>)
    requires
        is_run(terms, lag, expire_case(), turns),
        terms.retains_for(3 * lag),
    ensures
        keeps(expire_case(), turns),
{
    let s = expire_case();
    assert(obeys(terms, lag, s[0].action, turns[0]));
    lemma_next_turn(terms, lag, s, turns, 1);
    assert(breach(s[1], turns[1].reply) is None);
    lemma_next_turn(terms, lag, s, turns, 2);
    assert(turns[2].pre.contains_key("k"@));
    assert(breach(s[2], turns[2].reply) is None);
    lemma_next_turn(terms, lag, s, turns, 3);
    reveal_strlit("k");
    reveal_strlit("nope");
    assert("k"@.len() != "nope"@.len());
    assert(breach(s[3], turns[3].reply) is None);
}

proof fn lemma_ttl(terms: KvTerms, lag: nat, short: nat, slack: nat, turns: Seq<KvTurn>)
    requires
        is_run(terms, lag, ttl_case(short, slack), turns),
        terms.late <= slack,
    ensures
        keeps(ttl_case(short, slack), turns),
{
    let s = ttl_case(short, slack);
    assert(obeys(terms, lag, s[0].action, turns[0]));
    lemma_next_turn(terms, lag, s, turns, 1);
    assert(breach(s[1], turns[1].reply) is None);
    lemma_next_turn(terms, lag, s, turns, 2);
    assert(breach(s[2], turns[2].reply) is None);
    lemma_next_turn(terms, lag, s, turns, 3);
    assert(breach(s[3], turns[3].reply) is None);
}

proof fn lemma_overwrite(
    terms: KvTerms,
    lag: nat,
    short: nat,
    slack: nat,
    turns: Seq<KvTurn>,
)
    requires
        is_run(terms, lag, overwrite_case(short, slack), turns),
        terms.retains_for(short + slack + 3 * lag),
    ensures
        keeps(overwrite_case(short, slack), turns),
{
    let s = overwrite_case(short, slack);
    assert(obeys(terms, lag, s[0].action, turns[0]));
    lemma_next_turn(terms, lag, s, turns, 1);
    assert(breach(s[1], turns[1].reply) is None);
    lemma_next_turn(terms, lag, s, turns, 2);
    assert(breach(s[2], turns[2].reply) is None);
    lemma_next_turn(terms, lag, s, turns, 3);
    assert(breach(s[3], turns[3].reply) is None);
    lemma_next_turn(terms, lag, s, turns, 4);
    assert(turns[4].pre.contains_key("k"@));
    assert(breach(s[4], turns[4].reply) is None);
}

proof fn lemma_incr_missing(terms: KvTerms, lag: nat, turns: Seq<KvTurn>)
    requires
        is_run(terms, lag, incr_missing_case(), turns),
        terms.retains_for(3 * lag),
    ensures
        keeps(incr_missing_case(), turns),
{
    let s = incr_missing_case();
    assert(obeys(terms, lag, s[0].action, turns[0]));
    lemma_next_turn(terms, lag, s, turns, 1);
    assert(breach(s[1], turns[1].reply) is None);
    lemma_next_turn(terms, lag, s, turns, 2);
    assert(turns[2].pre.contains_key("ctr"@));
    assert(breach(s[2], turns[2].reply) is None);
    lemma_next_turn(terms, lag, s, turns, 3);
    assert(breach(s[3], turns[3].reply) is None);
}

proof fn lemma_incr_accumulates(terms: KvTerms, lag: nat, turns: Seq<KvTurn>)
    requires
        is_run(terms, lag, incr_accumulates_case(), turns),
        terms.retains_for(3 * lag),
    ensures
        keeps(incr_accumulates_case(), turns),
{
    let s = incr_accumulates_case();
    assert(obeys(terms, lag, s[0].action, turns[0]));
    law_counter_reads_back(10);
    law_counter_reads_back(7);
    lemma_next_turn(terms, lag, s, turns, 1);
    assert(breach(s[1], turns[1].reply) is None);
    lemma_next_turn(terms, lag, s, turns, 2);
    assert(turns[2].pre.contains_key("ctr"@));
    assert(breach(s[2], turns[2].reply) is None);
    lemma_next_turn(terms, lag, s, turns, 3);
    assert(turns[3].pre.contains_key("ctr"@));
    assert(breach(s[3], turns[3].reply) is None);
    lemma_next_turn(terms, lag, s, turns, 4);
    assert(turns[4].pre.contains_key("ctr"@));
    assert(text_bytes("7"@) == counter_bytes(7)) by {
        reveal_strlit("7");
        vstd::utf8::is_ascii_chars_encode_utf8("7"@);
        assert(text_bytes("7"@) =~= counter_bytes(7));
    }
    assert(breach(s[4], turns[4].reply) is None);
}

proof fn lemma_incr_rejects(terms: KvTerms, lag: nat, turns: Seq<KvTurn>)
    requires
        is_run(terms, lag, incr_rejects_case(), turns),
        terms.retains_for(3 * lag),
    ensures
        keeps(incr_rejects_case(), turns),
{
    let s = incr_rejects_case();
    assert(obeys(terms, lag, s[0].action, turns[0]));
    lemma_next_turn(terms, lag, s, turns, 1);
    assert(breach(s[1], turns[1].reply) is None);
    lemma_next_turn(terms, lag, s, turns, 2);
    assert(turns[2].pre.contains_key("blob"@));
    assert(counter_value(text_bytes("not-a-number"@)) is None) by {
        reveal_strlit("not-a-number");
        vstd::utf8::is_ascii_chars_encode_utf8("not-a-number"@);
        let bytes = text_bytes("not-a-number"@);
        assert(bytes[0] == 110);
    }
    assert(breach(s[2], turns[2].reply) is None);
    lemma_next_turn(terms, lag, s, turns, 3);
    assert(turns[3].pre.contains_key("blob"@));
    assert(breach(s[3], turns[3].reply) is None);
}

/// The three keys of the listing case, and which of them are under its prefix.
proof fn lemma_listing_keys()
    ensures
        "a:1"@ != "a:2"@,
        "a:1"@ != "b:1"@,
        "a:2"@ != "b:1"@,
        "a:"@.is_prefix_of("a:1"@),
        "a:"@.is_prefix_of("a:2"@),
        !"a:"@.is_prefix_of("b:1"@),
{
    reveal_strlit("a:");
    reveal_strlit("a:1");
    reveal_strlit("a:2");
    reveal_strlit("b:1");
    assert("a:1"@[2] != "a:2"@[2]);
    assert("a:1"@[0] != "b:1"@[0]);
    assert("a:2"@[0] != "b:1"@[0]);
    assert("a:"@[0] != "b:1"@[0]);
    assert("b:1"@.subrange(0, 2)[0] == "b:1"@[0]);
}

/// A full listing of the three keys has the two under the prefix.
proof fn lemma_listing(terms: KvTerms, live: KvState, listing: Seq<(Seq<char>, EntryView)>)
    requires
        terms.page >= 2,
        live.dom() == set!["a:1"@, "a:2"@, "b:1"@],
        lists(terms, live, "a:"@, 100, listing),
    ensures
        lists_as_told(listing, 2, seq!["a:1"@, "a:2"@], seq!["b:1"@]),
{
    lemma_listing_keys();
    let under = keys_under(live, "a:"@);
    assert(under =~= set!["a:1"@, "a:2"@]);
    assert(under.len() == 2);
    let keys = Seq::new(listing.len(), |i: int| listing[i].0);
    keys.unique_seq_to_set();
    assert(listed_keys(listing) =~= keys);
    assert(keys.to_set().contains("a:1"@));
    assert(keys.to_set().contains("a:2"@));
    assert(!keys.to_set().contains("b:1"@));
}

/// The listing finds the three keys, and what comes before it is as demanded.
proof fn lemma_listing_finds(terms: KvTerms, lag: nat, turns: Seq<KvTurn>)
    requires
        is_run(terms, lag, list_prefix_case(), turns),
        terms.retains_for(3 * lag),
    ensures
        turns[4].moments[0].live.dom() == set!["a:1"@, "a:2"@, "b:1"@],
        forall|i: int|
            #![trigger turns[i]]
            0 <= i < 4 ==> breach(list_prefix_case()[i], turns[i].reply) is None,
{
    let s = list_prefix_case();
    lemma_listing_keys();
    assert(obeys(terms, lag, s[0].action, turns[0]));
    lemma_next_turn(terms, lag, s, turns, 1);
    assert(breach(s[1], turns[1].reply) is None);
    lemma_next_turn(terms, lag, s, turns, 2);
    assert(turns[2].pre.contains_key("a:1"@));
    assert(breach(s[2], turns[2].reply) is None);
    lemma_next_turn(terms, lag, s, turns, 3);
    assert(turns[3].pre.contains_key("a:1"@));
    assert(turns[3].pre.contains_key("a:2"@));
    assert(breach(s[3], turns[3].reply) is None);
    lemma_next_turn(terms, lag, s, turns, 4);
    assert(turns[4].pre.contains_key("a:1"@));
    assert(turns[4].pre.contains_key("a:2"@));
    assert(turns[4].pre.contains_key("b:1"@));
    assert(turns[4].moments[0].live.dom() =~= set!["a:1"@, "a:2"@, "b:1"@]);
}

proof fn lemma_list_prefix(terms: KvTerms, lag: nat, turns: Seq<KvTurn>)
    requires
        is_run(terms, lag, list_prefix_case(), turns),
        terms.retains_for(3 * lag),
        terms.page >= 2,
    ensures
        keeps(list_prefix_case(), turns),
{
    let s = list_prefix_case();
    lemma_listing_finds(terms, lag, turns);
    lemma_next_turn(terms, lag, s, turns, 4);
    lemma_listing(terms, turns[4].moments[0].live, turns[4].reply->Answer_0->Listed_0);
    assert(breach(s[4], turns[4].reply) is None);
}

/// Increments by 1 of a counter that is not there yet, one after the other, answer
/// 1, 2, 3 and so on.
proof fn lemma_increments_count_up(
    terms: KvTerms,
    key: Seq<char>,
    pre: KvState,
    moments: Seq<KvMoment>,
    answers: Seq<KvAnswer>,
    post: KvState,
    at: int,
    lag: nat,
)
    requires
        runs_through(
            terms,
            KvOp::Incr { key, delta: 1, ttl: None },
            pre,
            moments,
            answers,
            post,
        ),
        forall|i: int|
            0 <= i < moments.len() ==> at <= #[trigger] moments[i].at <= at + lag,
        terms.retains_for(3 * lag),
        !pre.contains_key(key),
        moments.len() < i64::MAX,
    ensures
        answers.len() == moments.len(),
        forall|i: int| 0 <= i < answers.len() ==> #[trigger] answers[i] == KvAnswer::Counted(i + 1),
        if moments.len() == 0 {
            !post.contains_key(key)
        } else {
            post.contains_key(key) && post[key].ttl is None && post[key].armed_at >= at
                && post[key].bytes == counter_bytes(moments.len() as int)
        },
    decreases moments.len(),
{
    if moments.len() > 0 {
        let last = moments.last();
        lemma_increments_count_up(
            terms,
            key,
            pre,
            moments.drop_last(),
            answers.drop_last(),
            last.pre,
            at,
            lag,
        );
        assert(last == moments[moments.len() - 1]);
        law_counter_reads_back((moments.len() - 1) as i64);
        if moments.len() > 1 {
            assert(last.pre.contains_key(key));
        }
        assert(answers.last() == KvAnswer::Counted(moments.len() as int));
        assert forall|i: int| 0 <= i < answers.len() implies #[trigger] answers[i]
            == KvAnswer::Counted(i + 1) by {
            if i < answers.len() - 1 {
                assert(answers.drop_last()[i] == answers[i]);
            }
        }
    }
}

/// Where no answer failed and no two are the same, none clashes.
proof fn lemma_no_clash(answers: Seq<KvAnswer>, from: int)
    requires
        answers.no_duplicates(),
        forall|i: int| 0 <= i < answers.len() ==> #[trigger] answers[i] is Counted,
        0 <= from,
    ensures
        first_clash(answers, from) is None,
    decreases answers.len() - from,
{
    if from < answers.len() {
        assert(!clashes(answers, from)) by {
            assert(answers[from] is Counted);
        }
        lemma_no_clash(answers, from + 1);
    }
}

proof fn lemma_incr_burst(terms: KvTerms, lag: nat, turns: Seq<KvTurn>)
    requires
        is_run(terms, lag, incr_burst_case(), turns),
        terms.retains_for(3 * lag),
    ensures
        keeps(incr_burst_case(), turns),
{
    broadcast use vstd::seq_lib::group_to_multiset_ensures;

    let s = incr_burst_case();
    assert(obeys(terms, lag, s[0].action, turns[0]));
    lemma_next_turn(terms, lag, s, turns, 1);
    let turn = turns[1];
    lemma_increments_count_up(
        terms,
        "ctr"@,
        turn.pre,
        turn.moments,
        turn.answers,
        turn.post,
        turn.at,
        lag,
    );
    assert(turn.answers.no_duplicates());
    turn.answers.lemma_multiset_has_no_duplicates();
    let answers = turn.reply->Burst_0;
    answers.lemma_multiset_has_no_duplicates_conv();
    assert forall|i: int| 0 <= i < answers.len() implies #[trigger] answers[i] is Counted by {
        assert(answers.contains(answers[i]));
        assert(answers.to_multiset().count(answers[i]) > 0);
        assert(turn.answers.contains(answers[i]));
    }
    lemma_no_clash(answers, 0);
    answers.to_multiset_ensures();
    turn.answers.to_multiset_ensures();
    assert(answers.len() == turn.answers.len());
    assert(breach(s[1], turns[1].reply) is None);
    lemma_next_turn(terms, lag, s, turns, 2);
    assert(turns[2].pre.contains_key("ctr"@));
    law_counter_reads_back(40);
    assert(breach(s[2], turns[2].reply) is None);
}

proof fn lemma_incr_ttl(
    terms: KvTerms,
    lag: nat,
    short: nat,
    slack: nat,
    turns: Seq<KvTurn>,
)
    requires
        is_run(terms, lag, incr_ttl_case(short, slack), turns),
        terms.late <= slack,
        terms.early + 2 * lag + short + short / 2 + short / 5 < short * 3,
    ensures
        keeps(incr_ttl_case(short, slack), turns),
{
    let s = incr_ttl_case(short, slack);
    reveal_strlit("idle");
    reveal_strlit("live");
    assert("idle"@[0] != "live"@[0]);
    law_counter_reads_back(1);
    assert(obeys(terms, lag, s[0].action, turns[0]));
    lemma_next_turn(terms, lag, s, turns, 1);
    assert(breach(s[1], turns[1].reply) is None);
    lemma_next_turn(terms, lag, s, turns, 2);
    lemma_next_turn(terms, lag, s, turns, 3);
    assert(breach(s[3], turns[3].reply) is None);
    lemma_next_turn(terms, lag, s, turns, 4);
    assert(breach(s[4], turns[4].reply) is None);
    lemma_next_turn(terms, lag, s, turns, 5);
    lemma_next_turn(terms, lag, s, turns, 6);
    assert(turns[6].pre.contains_key("live"@));
    assert(turns[6].pre["live"@].lives(turns[6].at, terms));
    assert(breach(s[6], turns[6].reply) is None);
    lemma_next_turn(terms, lag, s, turns, 7);
    lemma_next_turn(terms, lag, s, turns, 8);
    assert(turns[8].pre.contains_key("live"@));
    assert(turns[8].pre["live"@].lives(turns[8].at, terms));
    assert(breach(s[8], turns[8].reply) is None);
    lemma_next_turn(terms, lag, s, turns, 9);
    lemma_next_turn(terms, lag, s, turns, 10);
    assert(breach(s[10], turns[10].reply) is None);
}

/// Whether `op` is an increment that the contents `live` do not allow.
pub open spec fn refuses(live: KvState, op: KvOp) -> bool {
    op matches KvOp::Incr { key, delta, .. } && counter_sum(live, key, delta) is None
}

/// What [`crate::KeyValueStore`] promises of a call in an isolated store is what a
/// run asks of it, as long as the call does not fail. A refused increment counts as
/// none that failed.
pub proof fn law_call_on_isolated_store_obeys(
    before: KvHandle,
    after: KvHandle,
    op: KvOp,
    answer: KvAnswer,
    lag: nat,
)
    requires
        before.isolated,
        after.answered(before, op, answer),
        !(answer is Failed) || refuses(after.history.last().moment.live, op),
    ensures
        obeys(
            before.terms,
            lag,
            KvActionView::Call(op),
            KvTurn {
                at: after.history.last().moment.at,
                pre: before.held(),
                post: after.held(),
                moments: seq![after.history.last().moment],
                answers: seq![answer],
                reply: KvReplyView::Answer(answer),
            },
        ),
{
    lemma_isolated_call(before, after, op, answer);
}

/// An operation on an isolated store finds what the one before it left.
proof fn lemma_isolated_call(before: KvHandle, after: KvHandle, op: KvOp, answer: KvAnswer)
    requires
        before.isolated,
        after.answered(before, op, answer),
    ensures
        after.history.last().moment.pre == before.held(),
        after.held() == after.history.last().moment.post,
        !(answer is Failed) || refuses(after.history.last().moment.live, op)
            ==> after.history.last().moment.performs(before.terms, op, answer),
{
    let last = after.history.last();
    assert(last == after.history[after.history.len() - 1]);
    assert(last.is_possible(after.terms));
    if before.history.len() > 0 {
        let n = before.history.len() - 1;
        assert(after.history[n] == before.history[n]);
        assert(after.history[n + 1].moment.pre == after.history[n].moment.post);
    }
}

/// What [`crate::KeyValueStore`] promises of calls made in turn in an isolated store
/// is what a run asks of a burst, as long as none of them fails and all take effect
/// within `lag`.
pub proof fn law_calls_in_turn_on_isolated_store_obey(
    handles: Seq<KvHandle>,
    op: KvOp,
    answers: Seq<KvAnswer>,
    at: int,
    lag: nat,
)
    requires
        takes_turns(handles, op, answers),
        handles[0].isolated,
        forall|i: int| 0 <= i < answers.len() ==> !(#[trigger] answers[i] is Failed),
        forall|i: int|
            0 <= i < answers.len() ==> at <= #[trigger] moments_of(handles)[i].at <= at + lag,
    ensures
        obeys(
            handles[0].terms,
            lag,
            KvActionView::Burst(op, answers.len()),
            KvTurn {
                at,
                pre: handles[0].held(),
                post: handles.last().held(),
                moments: moments_of(handles),
                answers,
                reply: KvReplyView::Burst(answers),
            },
        ),
{
    lemma_turns_run_through(handles, op, answers);
}

/// The moments at which the calls between `handles` took effect.
pub open spec fn moments_of(handles: Seq<KvHandle>) -> Seq<KvMoment> {
    Seq::new((handles.len() - 1) as nat, |i: int| handles[i + 1].history.last().moment)
}

proof fn lemma_turns_run_through(handles: Seq<KvHandle>, op: KvOp, answers: Seq<KvAnswer>)
    requires
        takes_turns(handles, op, answers),
        handles[0].isolated,
        forall|i: int| 0 <= i < answers.len() ==> !(#[trigger] answers[i] is Failed),
    ensures
        handles.last().isolated,
        handles.last().terms == handles[0].terms,
        runs_through(
            handles[0].terms,
            op,
            handles[0].held(),
            moments_of(handles),
            answers,
            handles.last().held(),
        ),
    decreases answers.len(),
{
    if answers.len() > 0 {
        let n = answers.len() - 1;
        let earlier = handles.drop_last();
        lemma_turns_run_through(earlier, op, answers.drop_last());
        assert(handles[n + 1].answered(handles[n], op, answers[n]));
        lemma_isolated_call(handles[n], handles[n + 1], op, answers[n]);
        assert(moments_of(handles).drop_last() =~= moments_of(earlier));
        assert(moments_of(handles).last() == handles[n + 1].history.last().moment);
    }
}

/// A store that does as the model says, and whose operations do not fail, passes the
/// battery. It lists two keys in full, and retains what has no TTL for longer than a
/// case takes. It may keep its TTLs loosely, but no looser
/// than the timing allows for: an entry has gone by the slack after its TTL, and what
/// it may go early, with the delays of two steps, fits between the longest wait and
/// the TTL that has to outlast it.
pub proof fn law_conforming_store_passes(
    terms: KvTerms,
    lag: nat,
    short: nat,
    slack: nat,
    turns: Seq<KvTurn>,
)
    requires
        is_run(terms, lag, battery(short, slack), turns),
        terms.page >= 2,
        terms.retains_for(short + slack + 3 * lag),
        terms.late <= slack,
        terms.early + 2 * lag + short + short / 2 + short / 5 < short * 3,
    ensures
        KvContractRunView::start(battery(short, slack)).observe_all(
            turns.map_values(|turn: KvTurn| turn.reply),
        ).passed(),
{
    let replies = turns.map_values(|turn: KvTurn| turn.reply);
    let b1 = get_missing_case();
    let b2 = b1 + put_get_case();
    let b3 = b2 + delete_case();
    let b4 = b3 + list_prefix_case();
    let b5 = b4 + expire_case();
    let b6 = b5 + ttl_case(short, slack);
    let b7 = b6 + overwrite_case(short, slack);
    let b8 = b7 + single_winner_case();
    let b9 = b8 + incr_missing_case();
    let b10 = b9 + incr_accumulates_case();
    let b11 = b10 + incr_burst_case();
    let b12 = b11 + incr_rejects_case();
    let t12 = turns.take(b12.len() as int);
    let t11 = t12.take(b11.len() as int);
    let t10 = t11.take(b10.len() as int);
    let t9 = t10.take(b9.len() as int);
    let t8 = t9.take(b8.len() as int);
    let t7 = t8.take(b7.len() as int);
    let t6 = t7.take(b6.len() as int);
    let t5 = t6.take(b5.len() as int);
    let t4 = t5.take(b4.len() as int);
    let t3 = t4.take(b3.len() as int);
    let t2 = t3.take(b2.len() as int);
    let t1 = t2.take(b1.len() as int);
    lemma_run_splits(terms, lag, b12, incr_ttl_case(short, slack), turns);
    lemma_run_splits(terms, lag, b11, incr_rejects_case(), t12);
    lemma_run_splits(terms, lag, b10, incr_burst_case(), t11);
    lemma_run_splits(terms, lag, b9, incr_accumulates_case(), t10);
    lemma_run_splits(terms, lag, b8, incr_missing_case(), t9);
    lemma_run_splits(terms, lag, b7, single_winner_case(), t8);
    lemma_run_splits(terms, lag, b6, overwrite_case(short, slack), t7);
    lemma_run_splits(terms, lag, b5, ttl_case(short, slack), t6);
    lemma_run_splits(terms, lag, b4, expire_case(), t5);
    lemma_run_splits(terms, lag, b3, list_prefix_case(), t4);
    lemma_run_splits(terms, lag, b2, delete_case(), t3);
    lemma_run_splits(terms, lag, b1, put_get_case(), t2);
    lemma_get_missing(terms, lag, t1);
    lemma_put_get(terms, lag, t2.skip(b1.len() as int));
    lemma_delete(terms, lag, t3.skip(b2.len() as int));
    lemma_list_prefix(terms, lag, t4.skip(b3.len() as int));
    lemma_expire(terms, lag, t5.skip(b4.len() as int));
    lemma_ttl(terms, lag, short, slack, t6.skip(b5.len() as int));
    lemma_overwrite(terms, lag, short, slack, t7.skip(b6.len() as int));
    lemma_single_winner(terms, lag, t8.skip(b7.len() as int));
    lemma_incr_missing(terms, lag, t9.skip(b8.len() as int));
    lemma_incr_accumulates(terms, lag, t10.skip(b9.len() as int));
    lemma_incr_burst(terms, lag, t11.skip(b10.len() as int));
    lemma_incr_rejects(terms, lag, t12.skip(b11.len() as int));
    lemma_incr_ttl(terms, lag, short, slack, turns.skip(b12.len() as int));
    let script = battery(short, slack);
    assert(keeps(script, turns));
    assert forall|i: int|
        #![trigger script[i]]
        0 <= i < script.len() && i < replies.len() implies is_whole(script[i], replies[i]) by {
        assert(replies[i] == turns[i].reply);
        assert(breach(script[i], turns[i].reply) is None);
    }
    law_run_passes_when_every_step_is_kept(script, replies);
    assert forall|i: int| #![trigger script[i]] 0 <= i < script.len() implies breach(
        script[i],
        replies[i],
    ) is None by {
        assert(replies[i] == turns[i].reply);
    }
}

/// With the timing for whole seconds, a store whose TTLs may be cut short by a
/// whole second passes, as long as no step is late by 150 ms.
pub proof fn law_whole_second_store_passes(
    timing: KvContractTiming,
    terms: KvTerms,
    lag: nat,
    turns: Seq<KvTurn>,
)
    requires
        timing.short_ttl@ == 1 * NANOS_PER_SEC,
        timing.expiry_slack@ == 1500 * NANOS_PER_MILLI,
        terms.early <= NANOS_PER_SEC,
        terms.late <= timing.expiry_slack@,
        terms.page >= 2,
        terms.retains_for(timing.short_ttl@ + timing.expiry_slack@ + 3 * lag),
        lag < 150 * NANOS_PER_MILLI,
        is_run(terms, lag, battery(timing.short_ttl@, timing.expiry_slack@), turns),
    ensures
        KvContractRunView::start(battery(timing.short_ttl@, timing.expiry_slack@)).observe_all(
            turns.map_values(|turn: KvTurn| turn.reply),
        ).passed(),
{
    law_conforming_store_passes(
        terms,
        lag,
        timing.short_ttl@,
        timing.expiry_slack@,
        turns,
    );
}

/// With the default timing, a store that keeps its TTLs to the millisecond passes,
/// as long as no step is late by 32 ms.
pub proof fn law_millisecond_store_passes(
    timing: KvContractTiming,
    terms: KvTerms,
    lag: nat,
    turns: Seq<KvTurn>,
)
    requires
        timing.short_ttl@ == 50 * NANOS_PER_MILLI,
        timing.expiry_slack@ == 120 * NANOS_PER_MILLI,
        terms.early <= NANOS_PER_MILLI,
        terms.late <= timing.expiry_slack@,
        terms.page >= 2,
        terms.retains_for(timing.short_ttl@ + timing.expiry_slack@ + 3 * lag),
        lag < 32 * NANOS_PER_MILLI,
        is_run(terms, lag, battery(timing.short_ttl@, timing.expiry_slack@), turns),
    ensures
        KvContractRunView::start(battery(timing.short_ttl@, timing.expiry_slack@)).observe_all(
            turns.map_values(|turn: KvTurn| turn.reply),
        ).passed(),
{
    law_conforming_store_passes(
        terms,
        lag,
        timing.short_ttl@,
        timing.expiry_slack@,
        turns,
    );
}

} // verus!
