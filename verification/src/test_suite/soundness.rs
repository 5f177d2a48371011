//! What a store has answered that passes the battery.
//!
//! The transcript of a run says what was asked of the stores and what came back, in
//! order. The laws say what is in the transcript of every run that passes, and in which
//! place, whatever the replies were and in however many parts the answers of a burst
//! came.

use vstd::prelude::*;

use super::cases::{
    battery, delete_case, expire_case, get_missing_case, incr_accumulates_case, incr_burst_case,
    incr_missing_case, incr_rejects_case, incr_ttl_case, list_prefix_case, overwrite_case,
    put_get_case, single_winner_case, ttl_case,
};
use super::run::KvContractRunView;
use super::script::{
    breach, clashes, first_clash, listed_keys, text_bytes, KvActionView, KvReplyView, KvStepView,
};
use super::KvContractTiming;
use crate::kv_model::{KvAnswer, KvOp};

verus! {

/// Something that happened in a run.
pub ghost enum KvEvent {
    /// A fresh store was opened.
    Opened,
    /// At least so many nanoseconds went by.
    Waited(nat),
    /// The store was asked, and answered.
    Answered(KvOp, KvAnswer),
}

/// What happened where `reply` came of `action`; nothing where it is no reply to it.
pub open spec fn events(action: KvActionView, reply: KvReplyView) -> Seq<KvEvent> {
    match (action, reply) {
        (KvActionView::Open, KvReplyView::Ready) => seq![KvEvent::Opened],
        (KvActionView::Pause(span), KvReplyView::Ready) => seq![KvEvent::Waited(span)],
        (KvActionView::Call(op), KvReplyView::Answer(answer)) => seq![
            KvEvent::Answered(op, answer),
        ],
        (KvActionView::Burst(op, _), KvReplyView::Burst(answers)) => answers.map_values(
            |answer: KvAnswer| KvEvent::Answered(op, answer),
        ),
        _ => seq![],
    }
}

/// What happened in a run of `script`: each reply is one to the action that the run
/// named at that time. Replies to a run that has ended are none.
pub open spec fn transcript(script: Seq<KvStepView>, replies: Seq<KvReplyView>) -> Seq<KvEvent>
    decreases replies.len(),
{
    if replies.len() == 0 {
        seq![]
    } else {
        let earlier = replies.drop_last();
        let run = KvContractRunView::start(script).observe_all(earlier);
        if run.in_progress() {
            transcript(script, earlier) + events(
                script[run.kept as int].action,
                replies.last(),
            )
        } else {
            transcript(script, earlier)
        }
    }
}

/// Whether `part` stands in `events` at `i`.
pub open spec fn reads(events: Seq<KvEvent>, i: int, part: Seq<KvEvent>) -> bool {
    &&& 0 <= i <= i + part.len() <= events.len()
    &&& events.subrange(i, i + part.len()) == part
}

/// Whether `key` was read, and these bytes were found.
pub open spec fn found(event: KvEvent, key: Seq<char>, bytes: Seq<u8>) -> bool {
    &&& event matches KvEvent::Answered(op, KvAnswer::Fetched(Some(entry)))
    &&& op == (KvOp::Get { key })
    &&& entry.bytes == bytes
}

/// The replies to the steps that were kept, each burst in one part.
pub(super) open spec fn wholes(
    script: Seq<KvStepView>,
    replies: Seq<KvReplyView>,
) -> Seq<KvReplyView>
    decreases replies.len(),
{
    if replies.len() == 0 {
        seq![]
    } else {
        let earlier = replies.drop_last();
        let run = KvContractRunView::start(script).observe_all(earlier);
        let whole = match replies.last() {
            KvReplyView::Burst(answers) => KvReplyView::Burst(run.burst + answers),
            reply => reply,
        };
        if run.observe(replies.last()).kept > run.kept {
            wholes(script, earlier).push(whole)
        } else {
            wholes(script, earlier)
        }
    }
}

/// What happened in the steps that `replies` are to.
pub(super) open spec fn told(script: Seq<KvStepView>, replies: Seq<KvReplyView>) -> Seq<KvEvent>
    decreases replies.len(),
{
    if replies.len() == 0 {
        seq![]
    } else {
        told(script, replies.drop_last()) + events(
            script[replies.len() - 1].action,
            replies.last(),
        )
    }
}

/// Whether none of `replies` breaks its step.
pub(super) open spec fn unbroken(script: Seq<KvStepView>, replies: Seq<KvReplyView>) -> bool {
    &&& replies.len() <= script.len()
    &&& forall|i: int|
        #![trigger replies[i]]
        0 <= i < replies.len() ==> breach(script[i], replies[i]) is None
}

/// What has come of the burst under way.
pub(super) open spec fn pending(run: KvContractRunView) -> Seq<KvEvent> {
    if run.in_progress() {
        events(run.script[run.kept as int].action, KvReplyView::Burst(run.burst))
    } else {
        seq![]
    }
}

pub(super) proof fn lemma_burst_events(action: KvActionView, a: Seq<KvAnswer>, b: Seq<KvAnswer>)
    ensures
        events(action, KvReplyView::Burst(a)) + events(action, KvReplyView::Burst(b)) == events(
            action,
            KvReplyView::Burst(a + b),
        ),
        events(action, KvReplyView::Burst(seq![])) == Seq::<KvEvent>::empty(),
{
    assert(events(action, KvReplyView::Burst(a)) + events(action, KvReplyView::Burst(b))
        =~= events(action, KvReplyView::Burst(a + b)));
    assert(events(action, KvReplyView::Burst(seq![])) =~= Seq::<KvEvent>::empty());
}

/// A run without a violation has kept to its steps, and its transcript is what
/// happened in them.
pub(super) proof fn lemma_transcript(script: Seq<KvStepView>, replies: Seq<KvReplyView>)
    ensures
        ({
            let run = KvContractRunView::start(script).observe_all(replies);
            &&& run.script == script
            &&& run.kept <= script.len()
            &&& run.burst.len() > 0 ==> run.in_progress()
                && script[run.kept as int].action is Burst
            &&& wholes(script, replies).len() == run.kept
            &&& unbroken(script, wholes(script, replies))
            &&& run.violation is None ==> transcript(script, replies) == told(
                script,
                wholes(script, replies),
            ) + pending(run)
        }),
    decreases replies.len(),
{
    let w = wholes(script, replies);
    if replies.len() == 0 {
        let run = KvContractRunView::start(script);
        if run.in_progress() {
            lemma_burst_events(script[0].action, seq![], seq![]);
        }
        assert(transcript(script, replies) =~= told(script, w) + pending(run));
    } else {
        let earlier = replies.drop_last();
        let reply = replies.last();
        lemma_transcript(script, earlier);
        let before = KvContractRunView::start(script).observe_all(earlier);
        let run = before.observe(reply);
        let v = wholes(script, earlier);
        if before.in_progress() {
            let action = script[before.kept as int].action;
            lemma_burst_events(action, before.burst, seq![]);
            if run.in_progress() {
                lemma_burst_events(script[run.kept as int].action, run.burst, seq![]);
            }
            if let KvReplyView::Burst(answers) = reply {
                lemma_burst_events(action, before.burst, answers);
            } else if before.burst.len() == 0 {
                assert(before.burst =~= seq![]);
            }
            if run.kept > before.kept {
                assert(w.drop_last() =~= v);
                assert(breach(script[before.kept as int], w.last()) is None);
                assert forall|i: int|
                    #![trigger w[i]]
                    0 <= i < w.len() implies breach(script[i], w[i]) is None by {
                    if i < v.len() {
                        assert(w[i] == v[i]);
                    }
                }
                assert(transcript(script, replies) =~= told(script, w) + pending(run));
            } else if run.violation is None {
                assert(transcript(script, replies) =~= told(script, w) + pending(run));
            }
        } else {
            assert(transcript(script, replies) == transcript(script, earlier));
        }
    }
}

/// What happened in two scripts, one after the other.
pub(super) proof fn lemma_told_splits(a: Seq<KvStepView>, b: Seq<KvStepView>, w: Seq<KvReplyView>)
    requires
        unbroken(a + b, w),
        w.len() >= a.len(),
    ensures
        unbroken(a, w.take(a.len() as int)),
        unbroken(b, w.skip(a.len() as int)),
        told(a + b, w) == told(a, w.take(a.len() as int)) + told(b, w.skip(a.len() as int)),
    decreases w.len(),
{
    let n = a.len() as int;
    let (x, y) = (w.take(n), w.skip(n));
    assert forall|i: int| #![trigger x[i]] 0 <= i < x.len() implies breach(a[i], x[i]) is None by {
        assert(w[i] == x[i]);
        assert((a + b)[i] == a[i]);
    }
    assert forall|i: int| #![trigger y[i]] 0 <= i < y.len() implies breach(b[i], y[i]) is None by {
        assert(w[i + n] == y[i]);
        assert((a + b)[i + n] == b[i]);
    }
    if w.len() == n {
        assert(x =~= w);
        assert(y =~= seq![]);
        lemma_told_of_prefix(a, b, w);
        assert(told(a + b, w) =~= told(a, x) + told(b, y));
    } else {
        let shorter = w.drop_last();
        assert forall|i: int| #![trigger shorter[i]] 0 <= i < shorter.len() implies breach(
            (a + b)[i],
            shorter[i],
        ) is None by {
            assert(w[i] == shorter[i]);
        }
        lemma_told_splits(a, b, shorter);
        assert(shorter.take(n) =~= x);
        assert(shorter.skip(n) =~= y.drop_last());
        assert((a + b)[w.len() - 1] == b[y.len() - 1]);
        assert(y.last() == w.last());
        assert(told(a + b, w) =~= told(a, x) + told(b, y));
    }
}

pub(super) proof fn lemma_told_of_prefix(
    a: Seq<KvStepView>,
    b: Seq<KvStepView>,
    w: Seq<KvReplyView>,
)
    requires
        w.len() <= a.len(),
    ensures
        told(a + b, w) == told(a, w),
    decreases w.len(),
{
    if w.len() > 0 {
        lemma_told_of_prefix(a, b, w.drop_last());
        assert((a + b)[w.len() - 1] == a[w.len() - 1]);
    }
}

/// Whether a case was gone through, and what happened in it stands in `log`.
spec fn went_through(
    log: Seq<KvEvent>,
    case: Seq<KvStepView>,
    w: Seq<KvReplyView>,
    i: int,
) -> bool {
    &&& w.len() == case.len()
    &&& unbroken(case, w)
    &&& reads(log, i, told(case, w))
}

/// A log that begins with what happened in a script and a case.
proof fn lemma_peel(
    log: Seq<KvEvent>,
    a: Seq<KvStepView>,
    case: Seq<KvStepView>,
    w: Seq<KvReplyView>,
)
    requires
        w.len() == a.len() + case.len(),
        unbroken(a + case, w),
        told(a + case, w).is_prefix_of(log),
    ensures
        unbroken(a, w.take(a.len() as int)),
        told(a, w.take(a.len() as int)).is_prefix_of(log),
        went_through(
            log,
            case,
            w.skip(a.len() as int),
            told(a, w.take(a.len() as int)).len() as int,
        ),
        told(a + case, w).len() == told(a, w.take(a.len() as int)).len() + told(
            case,
            w.skip(a.len() as int),
        ).len(),
{
    lemma_told_splits(a, case, w);
    let x = w.take(a.len() as int);
    let y = w.skip(a.len() as int);
    let (p, q) = (told(a, x), told(case, y));
    assert(log.subrange(0, (p + q).len() as int) =~= p + q);
    assert(log.subrange(0, p.len() as int) =~= p) by {
        assert forall|k: int| 0 <= k < p.len() implies log[k] == p[k] by {
            assert(log.subrange(0, (p + q).len() as int)[k] == (p + q)[k]);
        }
    }
    assert(log.subrange(p.len() as int, (p.len() + q.len()) as int) =~= q) by {
        assert forall|k: int| 0 <= k < q.len() implies log[k + p.len()] == q[k] by {
            assert(log.subrange(0, (p + q).len() as int)[k + p.len()] == (p + q)[k + p.len()]);
        }
    }
    assert(went_through(log, case, y, p.len() as int));
}

/// Whether `log` is the transcript of a run of the battery with this timing that
/// passed.
#[verifier::opaque]
pub open spec fn is_passed(short: nat, slack: nat, log: Seq<KvEvent>) -> bool {
    exists|replies: Seq<KvReplyView>|
        KvContractRunView::start(battery(short, slack)).observe_all(replies).passed() && log
            == #[trigger] transcript(battery(short, slack), replies)
}

/// Whether what happened in a case stands in `log` at `i`.
spec fn has_case(log: Seq<KvEvent>, case: Seq<KvStepView>, i: int) -> bool {
    exists|v: Seq<KvReplyView>| went_through(log, case, v, i)
}

/// Whether a case has no burst.
#[verifier::opaque]
spec fn is_plain(case: Seq<KvStepView>) -> bool {
    forall|i: int| 0 <= i < case.len() ==> !((#[trigger] case[i]).action is Burst)
}

/// A log that begins with what happened in a script and a case without a burst.
proof fn lemma_peel_plain(
    log: Seq<KvEvent>,
    a: Seq<KvStepView>,
    case: Seq<KvStepView>,
    w: Seq<KvReplyView>,
)
    requires
        w.len() == a.len() + case.len(),
        unbroken(a + case, w),
        told(a + case, w).is_prefix_of(log),
        is_plain(case),
    ensures
        unbroken(a, w.take(a.len() as int)),
        told(a, w.take(a.len() as int)).is_prefix_of(log),
        has_case(log, case, told(a, w.take(a.len() as int)).len() as int),
        told(a + case, w).len() == told(a, w.take(a.len() as int)).len() + case.len(),
{
    reveal(is_plain);
    lemma_peel(log, a, case, w);
    lemma_told_single(case, w.skip(a.len() as int));
}

/// The same for the case with the burst.
proof fn lemma_peel_burst(log: Seq<KvEvent>, a: Seq<KvStepView>, w: Seq<KvReplyView>)
    requires
        w.len() == a.len() + 3,
        unbroken(a + incr_burst_case(), w),
        told(a + incr_burst_case(), w).is_prefix_of(log),
    ensures
        unbroken(a, w.take(a.len() as int)),
        told(a, w.take(a.len() as int)).is_prefix_of(log),
        has_case(log, incr_burst_case(), told(a, w.take(a.len() as int)).len() as int),
        told(a + incr_burst_case(), w).len() == told(a, w.take(a.len() as int)).len() + 42,
{
    lemma_peel(log, a, incr_burst_case(), w);
    lemma_burst_case(w.skip(a.len() as int));
}

/// The cases without a burst.
proof fn lemma_cases_are_plain(short: nat, slack: nat)
    ensures
        is_plain(get_missing_case()) && get_missing_case().len() == 2,
        is_plain(put_get_case()) && put_get_case().len() == 3,
        is_plain(delete_case()) && delete_case().len() == 5,
        is_plain(list_prefix_case()) && list_prefix_case().len() == 5,
        is_plain(expire_case()) && expire_case().len() == 4,
        is_plain(ttl_case(short, slack)) && ttl_case(short, slack).len() == 4,
        is_plain(overwrite_case(short, slack)) && overwrite_case(short, slack).len() == 5,
        is_plain(single_winner_case()) && single_winner_case().len() == 6,
        is_plain(incr_missing_case()) && incr_missing_case().len() == 4,
        is_plain(incr_accumulates_case()) && incr_accumulates_case().len() == 5,
        is_plain(incr_rejects_case()) && incr_rejects_case().len() == 4,
        is_plain(incr_ttl_case(short, slack)) && incr_ttl_case(short, slack).len() == 11,
{
    reveal(is_plain);
}

/// What happens in the case of the burst.
proof fn lemma_burst_case(w: Seq<KvReplyView>)
    requires
        unbroken(incr_burst_case(), w),
        w.len() == 3,
    ensures
        told(incr_burst_case(), w).len() == 42,
{
    let case = incr_burst_case();
    assert(breach(case[0], w[0]) is None);
    assert(breach(case[1], w[1]) is None);
    assert(breach(case[2], w[2]) is None);
    let w2 = w.drop_last();
    let w1 = w2.drop_last();
    assert(w2.last() == w[1]);
    assert(w1.last() == w[0]);
    assert(told(case, w1.drop_last()).len() == 0);
    assert(told(case, w1).len() == 1);
    assert(told(case, w2).len() == 41);
}

/// A run that passes went through every case, one after the other.
#[verifier::rlimit(60)]
#[verifier::spinoff_prover]
proof fn lemma_all_cases(short: nat, slack: nat, log: Seq<KvEvent>)
    requires
        is_passed(short, slack, log),
    ensures
        ({
            &&& has_case(log, get_missing_case(), 0)
            &&& has_case(log, put_get_case(), 2)
            &&& has_case(log, delete_case(), 5)
            &&& has_case(log, list_prefix_case(), 10)
            &&& has_case(log, expire_case(), 15)
            &&& has_case(log, ttl_case(short, slack), 19)
            &&& has_case(log, overwrite_case(short, slack), 23)
            &&& has_case(log, single_winner_case(), 28)
            &&& has_case(log, incr_missing_case(), 34)
            &&& has_case(log, incr_accumulates_case(), 38)
            &&& has_case(log, incr_burst_case(), 43)
            &&& has_case(log, incr_rejects_case(), 85)
            &&& has_case(log, incr_ttl_case(short, slack), 89)
            &&& log.len() == 100
        }),
{
    reveal(is_passed);
    let script = battery(short, slack);
    let replies = choose|replies: Seq<KvReplyView>|
        KvContractRunView::start(script).observe_all(replies).passed() && log
            == #[trigger] transcript(script, replies);
    lemma_transcript(script, replies);
    let w = wholes(script, replies);
    assert(log =~= told(script, w));
    lemma_cases_are_plain(short, slack);
    let b0 = Seq::<KvStepView>::empty();
    let b1 = b0 + get_missing_case();
    let b2 = b1 + put_get_case();
    let b3 = b2 + delete_case();
    let b4 = b3 + list_prefix_case();
    let b5 = b4 + expire_case();
    let b6 = b5 + ttl_case(short, slack);
    let b7 = b6 + overwrite_case(short, slack);
    let b8 = b7 + single_winner_case();
    let b9 = b8 + incr_missing_case();
    let b10 = b9 + incr_accumulates_case();
    let b11 = b10 + incr_burst_case();
    let b12 = b11 + incr_rejects_case();
    let b13 = b12 + incr_ttl_case(short, slack);
    assert(b13 =~= script);
    let w12 = w.take(b12.len() as int);
    let w11 = w12.take(b11.len() as int);
    let w10 = w11.take(b10.len() as int);
    let w9 = w10.take(b9.len() as int);
    let w8 = w9.take(b8.len() as int);
    let w7 = w8.take(b7.len() as int);
    let w6 = w7.take(b6.len() as int);
    let w5 = w6.take(b5.len() as int);
    let w4 = w5.take(b4.len() as int);
    let w3 = w4.take(b3.len() as int);
    let w2 = w3.take(b2.len() as int);
    let w1 = w2.take(b1.len() as int);
    let w0 = w1.take(b0.len() as int);
    lemma_peel_plain(log, b12, incr_ttl_case(short, slack), w);
    lemma_peel_plain(log, b11, incr_rejects_case(), w12);
    lemma_peel_burst(log, b10, w11);
    lemma_peel_plain(log, b9, incr_accumulates_case(), w10);
    lemma_peel_plain(log, b8, incr_missing_case(), w9);
    lemma_peel_plain(log, b7, single_winner_case(), w8);
    lemma_peel_plain(log, b6, overwrite_case(short, slack), w7);
    lemma_peel_plain(log, b5, ttl_case(short, slack), w6);
    lemma_peel_plain(log, b4, expire_case(), w5);
    lemma_peel_plain(log, b3, list_prefix_case(), w4);
    lemma_peel_plain(log, b2, delete_case(), w3);
    lemma_peel_plain(log, b1, put_get_case(), w2);
    lemma_peel_plain(log, b0, get_missing_case(), w1);
    assert(told(b0, w0).len() == 0);
}

/// A run that passes comes to a hundred events in all.
pub proof fn law_passed_run_has_no_other_events(short: nat, slack: nat, log: Seq<KvEvent>)
    requires
        is_passed(short, slack, log),
    ensures
        log.len() == 100,
{
    lemma_all_cases(short, slack, log);
}

/// In a case without a burst one thing happens at each step.
pub(super) proof fn lemma_told_single(case: Seq<KvStepView>, w: Seq<KvReplyView>)
    requires
        unbroken(case, w),
        forall|i: int| 0 <= i < case.len() ==> !((#[trigger] case[i]).action is Burst),
    ensures
        told(case, w).len() == w.len(),
        forall|i: int|
            #![trigger told(case, w)[i]]
            0 <= i < w.len() ==> events(case[i].action, w[i]) == seq![told(case, w)[i]],
    decreases w.len(),
{
    if w.len() > 0 {
        let shorter = w.drop_last();
        let n = w.len() - 1;
        assert forall|i: int| #![trigger shorter[i]] 0 <= i < shorter.len() implies breach(
            case[i],
            shorter[i],
        ) is None by {
            assert(w[i] == shorter[i]);
        }
        lemma_told_single(case, shorter);
        assert(!(case[n].action is Burst));
        assert(breach(case[n], w[n]) is None);
        let last = events(case[n].action, w[n]);
        assert(last.len() == 1);
        assert(last =~= seq![last[0]]);
        assert forall|i: int|
            #![trigger told(case, w)[i]]
            0 <= i < w.len() implies events(case[i].action, w[i]) == seq![told(case, w)[i]] by {
            if i < n {
                assert(told(case, w)[i] == told(case, shorter)[i]);
                assert(w[i] == shorter[i]);
            } else {
                assert(told(case, w)[i] == last[0]);
            }
        }
    }
}

/// What happened at a step of a case without a burst.
proof fn lemma_event_at(case: Seq<KvStepView>, w: Seq<KvReplyView>, k: int)
    requires
        unbroken(case, w),
        0 <= k < w.len(),
        forall|i: int| 0 <= i < case.len() ==> !((#[trigger] case[i]).action is Burst),
    ensures
        breach(case[k], w[k]) is None,
        events(case[k].action, w[k]).len() == 1,
        events(case[k].action, w[k])[0] == told(case, w)[k],
{
    lemma_told_single(case, w);
    assert(breach(case[k], w[k]) is None);
    assert(events(case[k].action, w[k]) == seq![told(case, w)[k]]);
}

/// The bytes of the texts that the battery writes.
proof fn lemma_text_bytes()
    ensures
        text_bytes("7"@) == seq![55u8],
        text_bytes("a"@) == seq![97u8],
        text_bytes("a1"@) == seq![97u8, 49u8],
        text_bytes("a2"@) == seq![97u8, 50u8],
        text_bytes("b"@) == seq![98u8],
        text_bytes("b1"@) == seq![98u8, 49u8],
        text_bytes("c"@) == seq![99u8],
        text_bytes("new"@) == seq![110u8, 101u8, 119u8],
        text_bytes("not-a-number"@) == seq![
            110u8, 111u8, 116u8, 45u8, 97u8, 45u8,
            110u8, 117u8, 109u8, 98u8, 101u8, 114u8,
        ],
        text_bytes("old"@) == seq![111u8, 108u8, 100u8],
        text_bytes("v"@) == seq![118u8],
{
    reveal_strlit("7");
    vstd::utf8::is_ascii_chars_encode_utf8("7"@);
    assert(text_bytes("7"@) =~= seq![55u8]);
    reveal_strlit("a");
    vstd::utf8::is_ascii_chars_encode_utf8("a"@);
    assert(text_bytes("a"@) =~= seq![97u8]);
    reveal_strlit("a1");
    vstd::utf8::is_ascii_chars_encode_utf8("a1"@);
    assert(text_bytes("a1"@) =~= seq![97u8, 49u8]);
    reveal_strlit("a2");
    vstd::utf8::is_ascii_chars_encode_utf8("a2"@);
    assert(text_bytes("a2"@) =~= seq![97u8, 50u8]);
    reveal_strlit("b");
    vstd::utf8::is_ascii_chars_encode_utf8("b"@);
    assert(text_bytes("b"@) =~= seq![98u8]);
    reveal_strlit("b1");
    vstd::utf8::is_ascii_chars_encode_utf8("b1"@);
    assert(text_bytes("b1"@) =~= seq![98u8, 49u8]);
    reveal_strlit("c");
    vstd::utf8::is_ascii_chars_encode_utf8("c"@);
    assert(text_bytes("c"@) =~= seq![99u8]);
    reveal_strlit("new");
    vstd::utf8::is_ascii_chars_encode_utf8("new"@);
    assert(text_bytes("new"@) =~= seq![110u8, 101u8, 119u8]);
    reveal_strlit("not-a-number");
    vstd::utf8::is_ascii_chars_encode_utf8("not-a-number"@);
    assert(text_bytes("not-a-number"@) =~= seq![
        110u8, 111u8, 116u8, 45u8, 97u8, 45u8,
        110u8, 117u8, 109u8, 98u8, 101u8, 114u8,
    ]);
    reveal_strlit("old");
    vstd::utf8::is_ascii_chars_encode_utf8("old"@);
    assert(text_bytes("old"@) =~= seq![111u8, 108u8, 100u8]);
    reveal_strlit("v");
    vstd::utf8::is_ascii_chars_encode_utf8("v"@);
    assert(text_bytes("v"@) =~= seq![118u8]);
}

/// In every run that passes, a key that was never written was read, and there was
/// none.
pub proof fn law_passed_run_missing_key_reads_as_missing(short: nat, slack: nat, log: Seq<KvEvent>)
    requires
        is_passed(short, slack, log),
    ensures
        exists|part: Seq<KvEvent>| #[trigger]
            reads(log, 0, part) && {
                &&& part.len() == 2
                &&& part[0] == KvEvent::Opened
                &&& part[1] == KvEvent::Answered(
                    KvOp::Get { key: "nope"@ },
                    KvAnswer::Fetched(None),
                )
            },
{
    let case = get_missing_case();
    assert(has_case(log, case, 0)) by {
        lemma_all_cases(short, slack, log);
    }
    lemma_text_bytes();
    let w = choose|w: Seq<KvReplyView>| went_through(log, case, w, 0);
    lemma_told_single(case, w);
    let happened = told(case, w);
    lemma_event_at(case, w, 0);
    lemma_event_at(case, w, 1);
    assert(reads(log, 0, happened));
}

/// In every run that passes, a value was written and read back, byte for byte.
pub proof fn law_passed_run_value_reads_back(short: nat, slack: nat, log: Seq<KvEvent>)
    requires
        is_passed(short, slack, log),
    ensures
        exists|part: Seq<KvEvent>| #[trigger]
            reads(log, 2, part) && {
                &&& part.len() == 3
                &&& part[0] == KvEvent::Opened
                &&& part[1] == KvEvent::Answered(
                    KvOp::Put { key: "k"@, bytes: seq![118u8], ttl: None },
                    KvAnswer::Stored,
                )
                &&& found(part[2], "k"@, seq![118u8])
            },
{
    let case = put_get_case();
    assert(has_case(log, case, 2)) by {
        lemma_all_cases(short, slack, log);
    }
    lemma_text_bytes();
    let w = choose|w: Seq<KvReplyView>| went_through(log, case, w, 2);
    lemma_told_single(case, w);
    let happened = told(case, w);
    lemma_event_at(case, w, 0);
    lemma_event_at(case, w, 1);
    lemma_event_at(case, w, 2);
    assert(reads(log, 2, happened));
}

/// In every run that passes, a key was deleted, deleted again without being found,
/// and was gone.
pub proof fn law_passed_run_deletion_is_idempotent(short: nat, slack: nat, log: Seq<KvEvent>)
    requires
        is_passed(short, slack, log),
    ensures
        exists|part: Seq<KvEvent>| #[trigger]
            reads(log, 5, part) && {
                &&& part.len() == 5
                &&& part[0] == KvEvent::Opened
                &&& part[1] == KvEvent::Answered(
                    KvOp::Put { key: "k"@, bytes: seq![118u8], ttl: None },
                    KvAnswer::Stored,
                )
                &&& part[2] == KvEvent::Answered(
                    KvOp::Delete { key: "k"@ },
                    KvAnswer::Deleted(true),
                )
                &&& part[3] == KvEvent::Answered(
                    KvOp::Delete { key: "k"@ },
                    KvAnswer::Deleted(false),
                )
                &&& part[4] == KvEvent::Answered(KvOp::Get { key: "k"@ }, KvAnswer::Fetched(None))
            },
{
    let case = delete_case();
    assert(has_case(log, case, 5)) by {
        lemma_all_cases(short, slack, log);
    }
    lemma_text_bytes();
    let w = choose|w: Seq<KvReplyView>| went_through(log, case, w, 5);
    lemma_told_single(case, w);
    let happened = told(case, w);
    lemma_event_at(case, w, 0);
    lemma_event_at(case, w, 1);
    lemma_event_at(case, w, 2);
    lemma_event_at(case, w, 3);
    lemma_event_at(case, w, 4);
    assert(reads(log, 5, happened));
}

/// In every run that passes, a TTL was set on a key that was there, and not on one
/// that was not.
pub proof fn law_passed_run_expiry_reports_the_key(short: nat, slack: nat, log: Seq<KvEvent>)
    requires
        is_passed(short, slack, log),
    ensures
        exists|part: Seq<KvEvent>| #[trigger]
            reads(log, 15, part) && {
                &&& part.len() == 4
                &&& part[0] == KvEvent::Opened
                &&& part[1] == KvEvent::Answered(
                    KvOp::Put { key: "k"@, bytes: seq![118u8], ttl: None },
                    KvAnswer::Stored,
                )
                &&& part[2] == KvEvent::Answered(
                    KvOp::Expire { key: "k"@, ttl: Some(60_000_000_000) },
                    KvAnswer::Expired(true),
                )
                &&& part[3] == KvEvent::Answered(
                    KvOp::Expire { key: "nope"@, ttl: Some(60_000_000_000) },
                    KvAnswer::Expired(false),
                )
            },
{
    let case = expire_case();
    assert(has_case(log, case, 15)) by {
        lemma_all_cases(short, slack, log);
    }
    lemma_text_bytes();
    let w = choose|w: Seq<KvReplyView>| went_through(log, case, w, 15);
    lemma_told_single(case, w);
    let happened = told(case, w);
    lemma_event_at(case, w, 0);
    lemma_event_at(case, w, 1);
    lemma_event_at(case, w, 2);
    lemma_event_at(case, w, 3);
    assert(reads(log, 15, happened));
}

/// In every run that passes, a value was written with a TTL, and after the TTL and
/// the slack it was read and gone.
pub proof fn law_passed_run_ttl_purges_key(short: nat, slack: nat, log: Seq<KvEvent>)
    requires
        is_passed(short, slack, log),
    ensures
        exists|part: Seq<KvEvent>| #[trigger]
            reads(log, 19, part) && {
                &&& part.len() == 4
                &&& part[0] == KvEvent::Opened
                &&& part[1] == KvEvent::Answered(
                    KvOp::Put { key: "k"@, bytes: seq![118u8], ttl: Some(short) },
                    KvAnswer::Stored,
                )
                &&& part[2] == KvEvent::Waited(short + slack)
                &&& part[3] == KvEvent::Answered(KvOp::Get { key: "k"@ }, KvAnswer::Fetched(None))
            },
{
    let case = ttl_case(short, slack);
    assert(has_case(log, case, 19)) by {
        lemma_all_cases(short, slack, log);
    }
    lemma_text_bytes();
    let w = choose|w: Seq<KvReplyView>| went_through(log, case, w, 19);
    lemma_told_single(case, w);
    let happened = told(case, w);
    lemma_event_at(case, w, 0);
    lemma_event_at(case, w, 1);
    lemma_event_at(case, w, 2);
    lemma_event_at(case, w, 3);
    assert(reads(log, 19, happened));
}

/// In every run that passes, a value with a TTL was overwritten by one without, and
/// after the TTL and the slack the new value was read.
pub proof fn law_passed_run_overwrite_clears_ttl(short: nat, slack: nat, log: Seq<KvEvent>)
    requires
        is_passed(short, slack, log),
    ensures
        exists|part: Seq<KvEvent>| #[trigger]
            reads(log, 23, part) && {
                &&& part.len() == 5
                &&& part[0] == KvEvent::Opened
                &&& part[1] == KvEvent::Answered(
                    KvOp::Put { key: "k"@, bytes: seq![111u8, 108u8, 100u8], ttl: Some(short) },
                    KvAnswer::Stored,
                )
                &&& part[2] == KvEvent::Answered(
                    KvOp::Put { key: "k"@, bytes: seq![110u8, 101u8, 119u8], ttl: None },
                    KvAnswer::Stored,
                )
                &&& part[3] == KvEvent::Waited(short + slack)
                &&& found(part[4], "k"@, seq![110u8, 101u8, 119u8])
            },
{
    let case = overwrite_case(short, slack);
    assert(has_case(log, case, 23)) by {
        lemma_all_cases(short, slack, log);
    }
    lemma_text_bytes();
    let w = choose|w: Seq<KvReplyView>| went_through(log, case, w, 23);
    lemma_told_single(case, w);
    let happened = told(case, w);
    lemma_event_at(case, w, 0);
    lemma_event_at(case, w, 1);
    lemma_event_at(case, w, 2);
    lemma_event_at(case, w, 3);
    lemma_event_at(case, w, 4);
    assert(reads(log, 23, happened));
}

/// In every run that passes, the first claim of a key won, the second lost and did
/// not overwrite, and once the key was deleted a claim won again.
pub proof fn law_passed_run_claim_has_single_winner(short: nat, slack: nat, log: Seq<KvEvent>)
    requires
        is_passed(short, slack, log),
    ensures
        exists|part: Seq<KvEvent>| #[trigger]
            reads(log, 28, part) && {
                &&& part.len() == 6
                &&& part[0] == KvEvent::Opened
                &&& part[1] == KvEvent::Answered(
                    KvOp::PutIfAbsent { key: "claim"@, bytes: seq![97u8], ttl: None },
                    KvAnswer::Claimed(true),
                )
                &&& part[2] == KvEvent::Answered(
                    KvOp::PutIfAbsent { key: "claim"@, bytes: seq![98u8], ttl: None },
                    KvAnswer::Claimed(false),
                )
                &&& found(part[3], "claim"@, seq![97u8])
                &&& part[4] == KvEvent::Answered(
                    KvOp::Delete { key: "claim"@ },
                    KvAnswer::Deleted(true),
                )
                &&& part[5] == KvEvent::Answered(
                    KvOp::PutIfAbsent { key: "claim"@, bytes: seq![99u8], ttl: None },
                    KvAnswer::Claimed(true),
                )
            },
{
    let case = single_winner_case();
    assert(has_case(log, case, 28)) by {
        lemma_all_cases(short, slack, log);
    }
    lemma_text_bytes();
    let w = choose|w: Seq<KvReplyView>| went_through(log, case, w, 28);
    lemma_told_single(case, w);
    let happened = told(case, w);
    lemma_event_at(case, w, 0);
    lemma_event_at(case, w, 1);
    lemma_event_at(case, w, 2);
    lemma_event_at(case, w, 3);
    lemma_event_at(case, w, 4);
    lemma_event_at(case, w, 5);
    assert(reads(log, 28, happened));
}

/// In every run that passes, a counter started from 0, and again once it was deleted.
pub proof fn law_passed_run_counter_starts_at_zero(short: nat, slack: nat, log: Seq<KvEvent>)
    requires
        is_passed(short, slack, log),
    ensures
        exists|part: Seq<KvEvent>| #[trigger]
            reads(log, 34, part) && {
                &&& part.len() == 4
                &&& part[0] == KvEvent::Opened
                &&& part[1] == KvEvent::Answered(
                    KvOp::Incr { key: "ctr"@, delta: 5, ttl: None },
                    KvAnswer::Counted(5),
                )
                &&& part[2] == KvEvent::Answered(
                    KvOp::Delete { key: "ctr"@ },
                    KvAnswer::Deleted(true),
                )
                &&& part[3] == KvEvent::Answered(
                    KvOp::Incr { key: "ctr"@, delta: 3, ttl: None },
                    KvAnswer::Counted(3),
                )
            },
{
    let case = incr_missing_case();
    assert(has_case(log, case, 34)) by {
        lemma_all_cases(short, slack, log);
    }
    lemma_text_bytes();
    let w = choose|w: Seq<KvReplyView>| went_through(log, case, w, 34);
    lemma_told_single(case, w);
    let happened = told(case, w);
    lemma_event_at(case, w, 0);
    lemma_event_at(case, w, 1);
    lemma_event_at(case, w, 2);
    lemma_event_at(case, w, 3);
    assert(reads(log, 34, happened));
}

/// In every run that passes, increments added up, one by 0 read the counter, and it
/// was stored in ASCII base 10.
pub proof fn law_passed_run_increments_add_up(short: nat, slack: nat, log: Seq<KvEvent>)
    requires
        is_passed(short, slack, log),
    ensures
        exists|part: Seq<KvEvent>| #[trigger]
            reads(log, 38, part) && {
                &&& part.len() == 5
                &&& part[0] == KvEvent::Opened
                &&& part[1] == KvEvent::Answered(
                    KvOp::Incr { key: "ctr"@, delta: 10, ttl: None },
                    KvAnswer::Counted(10),
                )
                &&& part[2] == KvEvent::Answered(
                    KvOp::Incr { key: "ctr"@, delta: -3, ttl: None },
                    KvAnswer::Counted(7),
                )
                &&& part[3] == KvEvent::Answered(
                    KvOp::Incr { key: "ctr"@, delta: 0, ttl: None },
                    KvAnswer::Counted(7),
                )
                &&& found(part[4], "ctr"@, seq![55u8])
            },
{
    let case = incr_accumulates_case();
    assert(has_case(log, case, 38)) by {
        lemma_all_cases(short, slack, log);
    }
    lemma_text_bytes();
    let w = choose|w: Seq<KvReplyView>| went_through(log, case, w, 38);
    lemma_told_single(case, w);
    let happened = told(case, w);
    lemma_event_at(case, w, 0);
    lemma_event_at(case, w, 1);
    lemma_event_at(case, w, 2);
    lemma_event_at(case, w, 3);
    lemma_event_at(case, w, 4);
    assert(reads(log, 38, happened));
}

/// In every run that passes, an increment of a value that is no integer failed, and
/// the value was left as it was.
pub proof fn law_passed_run_non_integer_is_refused(short: nat, slack: nat, log: Seq<KvEvent>)
    requires
        is_passed(short, slack, log),
    ensures
        exists|part: Seq<KvEvent>| #[trigger]
            reads(log, 85, part) && {
                &&& part.len() == 4
                &&& part[0] == KvEvent::Opened
                &&& part[1] == KvEvent::Answered(
                    KvOp::Put {
                        key: "blob"@,
                        bytes: seq![
                            110u8, 111u8, 116u8, 45u8, 97u8, 45u8,
                            110u8, 117u8, 109u8, 98u8, 101u8, 114u8,
                        ],
                        ttl: None,
                    },
                    KvAnswer::Stored,
                )
                &&& part[2] matches KvEvent::Answered(op, KvAnswer::Failed(_))
                &&& op == (KvOp::Incr { key: "blob"@, delta: 1, ttl: None })
                &&& found(part[3], "blob"@, seq![
                    110u8, 111u8, 116u8, 45u8, 97u8, 45u8,
                    110u8, 117u8, 109u8, 98u8, 101u8, 114u8,
                ])
            },
{
    let case = incr_rejects_case();
    assert(has_case(log, case, 85)) by {
        lemma_all_cases(short, slack, log);
    }
    lemma_text_bytes();
    let w = choose|w: Seq<KvReplyView>| went_through(log, case, w, 85);
    lemma_told_single(case, w);
    let happened = told(case, w);
    lemma_event_at(case, w, 0);
    lemma_event_at(case, w, 1);
    lemma_event_at(case, w, 2);
    lemma_event_at(case, w, 3);
    assert(reads(log, 85, happened));
}

/// In every run that passes, a counter that was left idle for its TTL and the slack
/// started anew. One that was incremented twice outlived the TTL of the first
/// increment, and once it had been left idle for its TTL and the slack, it was read
/// and gone.
pub proof fn law_passed_run_sliding_ttl_purges_counter(short: nat, slack: nat, log: Seq<KvEvent>)
    requires
        is_passed(short, slack, log),
    ensures
        exists|part: Seq<KvEvent>| #[trigger]
            reads(log, 89, part) && {
                &&& part.len() == 11
                &&& part[0] == KvEvent::Opened
                &&& part[1] == KvEvent::Answered(
                    KvOp::Incr { key: "idle"@, delta: 7, ttl: Some(short) },
                    KvAnswer::Counted(7),
                )
                &&& part[2] == KvEvent::Waited(short + slack)
                &&& part[3] == KvEvent::Answered(
                    KvOp::Incr { key: "idle"@, delta: 2, ttl: Some(short) },
                    KvAnswer::Counted(2),
                )
                &&& part[4] == KvEvent::Answered(
                    KvOp::Incr { key: "live"@, delta: 1, ttl: Some(short * 3) },
                    KvAnswer::Counted(1),
                )
                &&& part[5] == KvEvent::Waited(short + short / 2)
                &&& part[6] == KvEvent::Answered(
                    KvOp::Incr { key: "live"@, delta: 1, ttl: Some(short * 3) },
                    KvAnswer::Counted(2),
                )
                &&& part[7] == KvEvent::Waited(short + short / 2 + short / 5)
                &&& part[8] matches KvEvent::Answered(op, KvAnswer::Fetched(Some(_)))
                &&& op == (KvOp::Get { key: "live"@ })
                &&& part[9] == KvEvent::Waited(short * 3 + slack)
                &&& part[10] == KvEvent::Answered(
                    KvOp::Get { key: "live"@ },
                    KvAnswer::Fetched(None),
                )
            },
{
    let case = incr_ttl_case(short, slack);
    assert(has_case(log, case, 89)) by {
        lemma_all_cases(short, slack, log);
    }
    lemma_text_bytes();
    let w = choose|w: Seq<KvReplyView>| went_through(log, case, w, 89);
    lemma_told_single(case, w);
    let happened = told(case, w);
    lemma_event_at(case, w, 0);
    lemma_event_at(case, w, 1);
    lemma_event_at(case, w, 2);
    lemma_event_at(case, w, 3);
    lemma_event_at(case, w, 4);
    lemma_event_at(case, w, 5);
    lemma_event_at(case, w, 6);
    lemma_event_at(case, w, 7);
    lemma_event_at(case, w, 8);
    lemma_event_at(case, w, 9);
    lemma_event_at(case, w, 10);
    assert(reads(log, 89, happened));
}

/// In every run that passes, of three keys, two of them under a prefix, a listing
/// under that prefix has exactly those two, in either order.
pub proof fn law_passed_run_lists_keys_under_prefix(
    short: nat,
    slack: nat,
    log: Seq<KvEvent>,
)
    requires
        is_passed(short, slack, log),
    ensures
        exists|part: Seq<KvEvent>| #[trigger]
            reads(log, 10, part) && {
                &&& part.len() == 5
                &&& part[0] == KvEvent::Opened
                &&& part[1] == KvEvent::Answered(
                    KvOp::Put { key: "a:1"@, bytes: seq![97u8, 49u8], ttl: None },
                    KvAnswer::Stored,
                )
                &&& part[2] == KvEvent::Answered(
                    KvOp::Put { key: "a:2"@, bytes: seq![97u8, 50u8], ttl: None },
                    KvAnswer::Stored,
                )
                &&& part[3] == KvEvent::Answered(
                    KvOp::Put { key: "b:1"@, bytes: seq![98u8, 49u8], ttl: None },
                    KvAnswer::Stored,
                )
                &&& part[4] matches KvEvent::Answered(op, KvAnswer::Listed(listing))
                &&& op == (KvOp::ListPrefix { prefix: "a:"@, limit: 100 })
                &&& listing.len() == 2
                &&& {
                    ||| listing[0].0 == "a:1"@ && listing[1].0 == "a:2"@
                    ||| listing[0].0 == "a:2"@ && listing[1].0 == "a:1"@
                }
            },
{
    let case = list_prefix_case();
    assert(has_case(log, case, 10)) by {
        lemma_all_cases(short, slack, log);
    }
    lemma_text_bytes();
    let w = choose|w: Seq<KvReplyView>| went_through(log, case, w, 10);
    lemma_told_single(case, w);
    let happened = told(case, w);
    lemma_event_at(case, w, 0);
    lemma_event_at(case, w, 1);
    lemma_event_at(case, w, 2);
    lemma_event_at(case, w, 3);
    lemma_event_at(case, w, 4);
    let listing = w[4]->Answer_0->Listed_0;
    let keys = listed_keys(listing);
    let listed = seq!["a:1"@, "a:2"@];
    assert(keys.contains(listed[0]) && keys.contains(listed[1]));
    reveal_strlit("a:1");
    reveal_strlit("a:2");
    assert("a:1"@[2] != "a:2"@[2]);
    let m = choose|m: int| 0 <= m < keys.len() && keys[m] == listed[0];
    let n = choose|n: int| 0 <= n < keys.len() && keys[n] == listed[1];
    assert(m != n);
    assert(reads(log, 10, happened));
}

/// Where none clashes from `from` on, every answer from there on is a count, and unlike
/// all before it.
proof fn lemma_no_clash_found(answers: Seq<KvAnswer>, from: int)
    requires
        first_clash(answers, from) is None,
        0 <= from,
    ensures
        forall|i: int| from <= i < answers.len() ==> !clashes(answers, i),
    decreases answers.len() - from,
{
    if from < answers.len() {
        lemma_no_clash_found(answers, from + 1);
    }
}

/// In every run that passes, of forty increments by 1 at once none failed and no two
/// saw the same value, and after them the counter stood at forty.
pub proof fn law_passed_run_loses_no_increment(
    short: nat,
    slack: nat,
    log: Seq<KvEvent>,
)
    requires
        is_passed(short, slack, log),
    ensures
        exists|part: Seq<KvEvent>| #[trigger]
            reads(log, 43, part) && {
                &&& part.len() == 42
                &&& part[0] == KvEvent::Opened
                &&& forall|k: int|
                    1 <= k <= 40 ==> (#[trigger] part[k] matches KvEvent::Answered(
                        op,
                        KvAnswer::Counted(_),
                    ) && op == (KvOp::Incr { key: "ctr"@, delta: 1, ttl: None }))
                &&& forall|k: int, l: int|
                    1 <= k < l <= 40 ==> #[trigger] part[k] != #[trigger] part[l]
                &&& part[41] == KvEvent::Answered(
                    KvOp::Incr { key: "ctr"@, delta: 0, ttl: None },
                    KvAnswer::Counted(40),
                )
            },
{
    let case = incr_burst_case();
    assert(has_case(log, case, 43)) by {
        lemma_all_cases(short, slack, log);
    }
    let w = choose|w: Seq<KvReplyView>| went_through(log, case, w, 43);
    assert(breach(case[0], w[0]) is None);
    assert(breach(case[1], w[1]) is None);
    assert(breach(case[2], w[2]) is None);
    let answers = w[1]->Burst_0;
    lemma_no_clash_found(answers, 0);
    let op = KvOp::Incr { key: "ctr"@, delta: 1, ttl: None };
    let first = seq![KvEvent::Opened];
    let burst = answers.map_values(|answer: KvAnswer| KvEvent::Answered(op, answer));
    let last = seq![
        KvEvent::Answered(
            KvOp::Incr { key: "ctr"@, delta: 0, ttl: None },
            KvAnswer::Counted(40),
        ),
    ];
    let part = told(case, w);
    assert(part =~= first + burst + last) by {
        let w2 = w.drop_last();
        let w1 = w2.drop_last();
        assert(w1.drop_last() =~= seq![]);
        assert(told(case, w1.drop_last()) =~= seq![]);
        assert(told(case, w1) =~= first);
        assert(told(case, w2) =~= first + burst);
    }
    assert forall|k: int| 1 <= k <= 40 implies (#[trigger] part[k] matches KvEvent::Answered(
        o,
        KvAnswer::Counted(_),
    ) && o == op) by {
        assert(!clashes(answers, k - 1));
        assert(part[k] == burst[k - 1]);
    }
    assert forall|k: int, l: int| 1 <= k < l <= 40 implies #[trigger] part[k]
        != #[trigger] part[l] by {
        assert(!clashes(answers, l - 1));
        assert(part[k] == burst[k - 1]);
        assert(part[l] == burst[l - 1]);
        assert(answers[k - 1] != answers[l - 1]);
    }
    assert(reads(log, 43, part));
}

/// Whether no wait of a script is longer than `most`.
spec fn waits_at_most(script: Seq<KvStepView>, most: int) -> bool {
    forall|i: int|
        0 <= i < script.len() ==> ((#[trigger] script[i]).action matches KvActionView::Pause(span)
            ==> span <= most)
}

proof fn lemma_waits_add_up(a: Seq<KvStepView>, b: Seq<KvStepView>, most: int)
    requires
        waits_at_most(a, most),
        waits_at_most(b, most),
    ensures
        waits_at_most(a + b, most),
{
    assert forall|i: int| 0 <= i < (a + b).len() implies ((#[trigger] (a + b)[i]).action matches
        KvActionView::Pause(span) ==> span <= most) by {
        if i < a.len() {
            assert((a + b)[i] == a[i]);
        } else {
            assert((a + b)[i] == b[i - a.len()]);
        }
    }
}

/// A timing is usable exactly where every wait of the battery is a duration that can be
/// expressed.
pub proof fn law_timing_is_usable_where_its_waits_are(timing: KvContractTiming)
    ensures
        timing.usable() <==> forall|i: int|
            0 <= i < battery(timing.short_ttl@, timing.expiry_slack@).len() ==> ((
            #[trigger] battery(timing.short_ttl@, timing.expiry_slack@)[i]).action matches
                KvActionView::Pause(span) ==> span <= 18_446_744_073_709_551_615_999_999_999),
{
    let (short, slack) = (timing.short_ttl@, timing.expiry_slack@);
    let script = battery(short, slack);
    let most = short * 3 + slack;
    assert(waits_at_most(script, most as int)) by {
        let b2 = get_missing_case() + put_get_case();
        let b3 = b2 + delete_case();
        let b4 = b3 + list_prefix_case();
        let b5 = b4 + expire_case();
        let b6 = b5 + ttl_case(short, slack);
        let b7 = b6 + overwrite_case(short, slack);
        let b8 = b7 + single_winner_case();
        let b9 = b8 + incr_missing_case();
        let b10 = b9 + incr_accumulates_case();
        let b11 = b10 + incr_burst_case();
        let b12 = b11 + incr_rejects_case();
        lemma_waits_add_up(get_missing_case(), put_get_case(), most as int);
        lemma_waits_add_up(b2, delete_case(), most as int);
        lemma_waits_add_up(b3, list_prefix_case(), most as int);
        lemma_waits_add_up(b4, expire_case(), most as int);
        lemma_waits_add_up(b5, ttl_case(short, slack), most as int);
        lemma_waits_add_up(b6, overwrite_case(short, slack), most as int);
        lemma_waits_add_up(b7, single_winner_case(), most as int);
        lemma_waits_add_up(b8, incr_missing_case(), most as int);
        lemma_waits_add_up(b9, incr_accumulates_case(), most as int);
        lemma_waits_add_up(b10, incr_burst_case(), most as int);
        lemma_waits_add_up(b11, incr_rejects_case(), most as int);
        lemma_waits_add_up(b12, incr_ttl_case(short, slack), most as int);
    }
    let last = script.len() - 2;
    assert(script[last] == incr_ttl_case(short, slack)[9]);
    assert(script[last].action == KvActionView::Pause(most));
}

} // verus!
