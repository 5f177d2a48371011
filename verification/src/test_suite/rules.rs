//! What is said of a store that does not pass the battery.

use vstd::prelude::*;

use super::cases::{
    battery, delete_case, expire_case, get_missing_case, incr_accumulates_case, incr_burst_case,
    incr_missing_case, incr_rejects_case, incr_ttl_case, list_prefix_case, overwrite_case,
    put_get_case, single_winner_case, ttl_case,
};
use super::run::KvContractRunView;
use super::script::{breach, KvReplyView, KvStepView, ViolationView};
use super::soundness::{
    events, lemma_burst_events, lemma_told_of_prefix, lemma_told_single, lemma_told_splits,
    lemma_transcript, told, transcript, unbroken, wholes, KvEvent,
};
use crate::kv_model::{KvAnswer, KvOp};

verus! {

/// What is said of a store that gives the answer `last`, after `before` and, before
/// that, `prior`, where that answer is not the right one.
pub open spec fn rule_of(prior: KvEvent, before: KvEvent, last: KvEvent) -> Seq<char> {
    let waited = before is Waited;
    match last {
        KvEvent::Answered(op, answer) => match (op, answer) {
            (KvOp::PutIfAbsent { bytes, .. }, KvAnswer::Claimed(won)) => if won {
                "put_if_absent on a present key must return false"@
            } else if before is Opened {
                "put_if_absent on an absent key must return true"@
            } else {
                "put_if_absent after delete must return true"@
            },
            (KvOp::Delete { key }, KvAnswer::Deleted(existed)) => if existed {
                "double-delete is idempotent (returns false)"@
            } else if key == "k"@ {
                "first delete returns true"@
            } else {
                "delete of a present key must return true"@
            },
            (KvOp::Expire { .. }, KvAnswer::Expired(existed)) => if existed {
                "expire on missing key returns false"@
            } else {
                "expire on existing key returns true"@
            },
            (KvOp::ListPrefix { .. }, _) => "prefix `a:` must yield exactly 2 entries"@,
            (KvOp::Get { key }, KvAnswer::Fetched(found)) => if key == "nope"@ {
                "get on missing key must return None"@
            } else if key == "claim"@ {
                if found is None {
                    "claim key exists"@
                } else {
                    "a losing put_if_absent must not overwrite the winner's value"@
                }
            } else if key == "ctr"@ {
                if found is None {
                    "counter key exists"@
                } else {
                    "counter must round-trip through get as ASCII base-10"@
                }
            } else if key == "blob"@ {
                if found is None {
                    "value survives"@
                } else {
                    "a failed incr must not clobber the value"@
                }
            } else if key == "live"@ {
                if found is None {
                    "a refreshed counter must outlive the first call's TTL arm"@
                } else {
                    "an idle counter must purge after its sliding TTL"@
                }
            } else if waited {
                if found is None {
                    "overwrite must clear TTL"@
                } else if prior matches KvEvent::Answered(KvOp::Put { ttl: None, .. }, _) {
                    "overwrite must replace the value"@
                } else {
                    "key must be purged after TTL elapses"@
                }
            } else if found is None {
                "just-put key must exist"@
            } else if before matches KvEvent::Answered(KvOp::Delete { .. }, _) {
                "deleted key must be gone"@
            } else {
                "a value must read back as written"@
            },
            (KvOp::Incr { key, delta, .. }, _) => if key == "blob"@ {
                "incr on a non-integer value must error"@
            } else if key == "idle"@ {
                if waited {
                    "an expired counter must restart from 0"@
                } else {
                    "incr on a missing key must start from 0"@
                }
            } else if key == "live"@ {
                if waited {
                    "refresh before expiry must see the accumulated count"@
                } else {
                    "incr on a missing key must start from 0"@
                }
            } else if delta == 0 {
                if before matches KvEvent::Answered(KvOp::Incr { delta: by, .. }, _) && by == 1 {
                    "increments must not be lost under concurrent callers"@
                } else {
                    "zero delta reads"@
                }
            } else if delta == 10 {
                "positive delta"@
            } else if delta == -3 {
                "negative delta"@
            } else if delta == 3 {
                "incr after delete must start from 0 again"@
            } else {
                "incr on a missing key must start from 0"@
            },
            _ => seq![],
        },
        _ => seq![],
    }
}

/// The keys of the battery are different keys.
proof fn lemma_keys_differ()
    ensures
        "k"@ != "nope"@,
        "k"@ != "claim"@,
        "k"@ != "ctr"@,
        "k"@ != "blob"@,
        "k"@ != "live"@,
        "claim"@ != "nope"@,
        "ctr"@ != "nope"@,
        "ctr"@ != "claim"@,
        "ctr"@ != "blob"@,
        "ctr"@ != "idle"@,
        "ctr"@ != "live"@,
        "blob"@ != "nope"@,
        "blob"@ != "claim"@,
        "live"@ != "nope"@,
        "live"@ != "claim"@,
        "live"@ != "blob"@,
        "live"@ != "idle"@,
        "idle"@ != "blob"@,
{
    reveal_strlit("k");
    reveal_strlit("nope");
    reveal_strlit("claim");
    reveal_strlit("ctr");
    reveal_strlit("blob");
    reveal_strlit("live");
    reveal_strlit("idle");
    assert("k"@.len() == 1 && "claim"@.len() == 5 && "ctr"@.len() == 3);
    assert("blob"@[0] != "nope"@[0]);
    assert("live"@[0] != "nope"@[0]);
    assert("live"@[0] != "blob"@[0]);
    assert("live"@[0] != "idle"@[0]);
    assert("idle"@[0] != "blob"@[0]);
}

/// Whether `rule` is what is said of the last of the events of a case, whatever came
/// before the case.
spec fn is_named(happened: Seq<KvEvent>, rule: Seq<char>) -> bool {
    let n = happened.len();
    &&& n >= 2
    &&& forall|prior: KvEvent|
        (n >= 3 ==> prior == happened[n - 3]) ==> rule == #[trigger] rule_of(
            prior,
            happened[n - 2],
            happened[n - 1],
        )
}

/// What happened in a case without a burst up to a step that was broken.
proof fn lemma_last_events(
    case: Seq<KvStepView>,
    w: Seq<KvReplyView>,
    reply: KvReplyView,
    rule: Seq<char>,
) -> (happened: Seq<KvEvent>)
    requires
        unbroken(case, w),
        w.len() < case.len(),
        forall|i: int| 0 <= i < case.len() ==> !((#[trigger] case[i]).action is Burst),
        breach(case[w.len() as int], reply) == Some(ViolationView::Broken { rule }),
    ensures
        happened == told(case, w) + events(case[w.len() as int].action, reply),
        happened.len() == w.len() + 1,
        seq![happened[w.len() as int]] == events(case[w.len() as int].action, reply),
        forall|i: int|
            #![trigger happened[i]]
            0 <= i < w.len() ==> events(case[i].action, w[i]) == seq![happened[i]] && breach(
                case[i],
                w[i],
            ) is None,
{
    let k = w.len() as int;
    lemma_told_single(case, w);
    let happened = told(case, w) + events(case[k].action, reply);
    assert(!(case[k].action is Burst));
    assert(events(case[k].action, reply).len() == 1);
    assert(seq![happened[k]] =~= events(case[k].action, reply));
    assert forall|i: int|
        #![trigger happened[i]]
        0 <= i < w.len() implies events(case[i].action, w[i]) == seq![happened[i]] && breach(
        case[i],
        w[i],
    ) is None by {
        assert(happened[i] == told(case, w)[i]);
        assert(w[i] == w[i]);
    }
    happened
}

proof fn lemma_get_missing_rules(
    w: Seq<KvReplyView>,
    reply: KvReplyView,
    rule: Seq<char>,
)
    requires
        unbroken(get_missing_case(), w),
        w.len() < 2,
        breach(get_missing_case()[w.len() as int], reply) == Some(
            ViolationView::Broken { rule },
        ),
    ensures
        is_named(
            told(get_missing_case(), w) + events(
                get_missing_case()[w.len() as int].action,
                reply,
            ),
            rule,
        ),
{
    lemma_keys_differ();
    let case = get_missing_case();
    let k = w.len() as int;
    let happened = lemma_last_events(case, w, reply, rule);
    assert(seq![happened[k]][0] == happened[k]);
    if k >= 1 {
        assert(seq![happened[k - 1]][0] == happened[k - 1]);
    }
    if k >= 2 {
        assert(seq![happened[k - 2]][0] == happened[k - 2]);
    }
    if k == 0 {
        assert(case[0].action is Open);
    } else if k == 1 {
        assert(events(case[1].action, reply) == seq![happened[1]]);
        assert(events(case[0].action, w[0]) == seq![happened[0]]);
    }
}

proof fn lemma_put_get_rules(
    w: Seq<KvReplyView>,
    reply: KvReplyView,
    rule: Seq<char>,
)
    requires
        unbroken(put_get_case(), w),
        w.len() < 3,
        breach(put_get_case()[w.len() as int], reply) == Some(
            ViolationView::Broken { rule },
        ),
    ensures
        is_named(
            told(put_get_case(), w) + events(
                put_get_case()[w.len() as int].action,
                reply,
            ),
            rule,
        ),
{
    lemma_keys_differ();
    let case = put_get_case();
    let k = w.len() as int;
    let happened = lemma_last_events(case, w, reply, rule);
    assert(seq![happened[k]][0] == happened[k]);
    if k >= 1 {
        assert(seq![happened[k - 1]][0] == happened[k - 1]);
    }
    if k >= 2 {
        assert(seq![happened[k - 2]][0] == happened[k - 2]);
    }
    if k == 0 {
        assert(case[0].action is Open);
    } else if k == 1 {
        assert(events(case[1].action, reply) == seq![happened[1]]);
        assert(events(case[0].action, w[0]) == seq![happened[0]]);
    } else if k == 2 {
        assert(events(case[2].action, reply) == seq![happened[2]]);
        assert(events(case[1].action, w[1]) == seq![happened[1]]);
        assert(events(case[0].action, w[0]) == seq![happened[0]]);
    }
}

proof fn lemma_delete_rules(
    w: Seq<KvReplyView>,
    reply: KvReplyView,
    rule: Seq<char>,
)
    requires
        unbroken(delete_case(), w),
        w.len() < 5,
        breach(delete_case()[w.len() as int], reply) == Some(
            ViolationView::Broken { rule },
        ),
    ensures
        is_named(
            told(delete_case(), w) + events(
                delete_case()[w.len() as int].action,
                reply,
            ),
            rule,
        ),
{
    lemma_keys_differ();
    let case = delete_case();
    let k = w.len() as int;
    let happened = lemma_last_events(case, w, reply, rule);
    assert(seq![happened[k]][0] == happened[k]);
    if k >= 1 {
        assert(seq![happened[k - 1]][0] == happened[k - 1]);
    }
    if k >= 2 {
        assert(seq![happened[k - 2]][0] == happened[k - 2]);
    }
    if k == 0 {
        assert(case[0].action is Open);
    } else if k == 1 {
        assert(events(case[1].action, reply) == seq![happened[1]]);
        assert(events(case[0].action, w[0]) == seq![happened[0]]);
    } else if k == 2 {
        assert(events(case[2].action, reply) == seq![happened[2]]);
        assert(events(case[1].action, w[1]) == seq![happened[1]]);
        assert(events(case[0].action, w[0]) == seq![happened[0]]);
    } else if k == 3 {
        assert(events(case[3].action, reply) == seq![happened[3]]);
        assert(events(case[2].action, w[2]) == seq![happened[2]]);
        assert(events(case[1].action, w[1]) == seq![happened[1]]);
    } else if k == 4 {
        assert(events(case[4].action, reply) == seq![happened[4]]);
        assert(events(case[3].action, w[3]) == seq![happened[3]]);
        assert(events(case[2].action, w[2]) == seq![happened[2]]);
    }
}

proof fn lemma_list_prefix_rules(
    w: Seq<KvReplyView>,
    reply: KvReplyView,
    rule: Seq<char>,
)
    requires
        unbroken(list_prefix_case(), w),
        w.len() < 5,
        breach(list_prefix_case()[w.len() as int], reply) == Some(
            ViolationView::Broken { rule },
        ),
    ensures
        is_named(
            told(list_prefix_case(), w) + events(
                list_prefix_case()[w.len() as int].action,
                reply,
            ),
            rule,
        ),
{
    lemma_keys_differ();
    let case = list_prefix_case();
    let k = w.len() as int;
    let happened = lemma_last_events(case, w, reply, rule);
    assert(seq![happened[k]][0] == happened[k]);
    if k >= 1 {
        assert(seq![happened[k - 1]][0] == happened[k - 1]);
    }
    if k >= 2 {
        assert(seq![happened[k - 2]][0] == happened[k - 2]);
    }
    if k == 0 {
        assert(case[0].action is Open);
    } else if k == 1 {
        assert(events(case[1].action, reply) == seq![happened[1]]);
        assert(events(case[0].action, w[0]) == seq![happened[0]]);
    } else if k == 2 {
        assert(events(case[2].action, reply) == seq![happened[2]]);
        assert(events(case[1].action, w[1]) == seq![happened[1]]);
        assert(events(case[0].action, w[0]) == seq![happened[0]]);
    } else if k == 3 {
        assert(events(case[3].action, reply) == seq![happened[3]]);
        assert(events(case[2].action, w[2]) == seq![happened[2]]);
        assert(events(case[1].action, w[1]) == seq![happened[1]]);
    } else if k == 4 {
        assert(events(case[4].action, reply) == seq![happened[4]]);
        assert(events(case[3].action, w[3]) == seq![happened[3]]);
        assert(events(case[2].action, w[2]) == seq![happened[2]]);
    }
}

proof fn lemma_expire_rules(
    w: Seq<KvReplyView>,
    reply: KvReplyView,
    rule: Seq<char>,
)
    requires
        unbroken(expire_case(), w),
        w.len() < 4,
        breach(expire_case()[w.len() as int], reply) == Some(
            ViolationView::Broken { rule },
        ),
    ensures
        is_named(
            told(expire_case(), w) + events(
                expire_case()[w.len() as int].action,
                reply,
            ),
            rule,
        ),
{
    lemma_keys_differ();
    let case = expire_case();
    let k = w.len() as int;
    let happened = lemma_last_events(case, w, reply, rule);
    assert(seq![happened[k]][0] == happened[k]);
    if k >= 1 {
        assert(seq![happened[k - 1]][0] == happened[k - 1]);
    }
    if k >= 2 {
        assert(seq![happened[k - 2]][0] == happened[k - 2]);
    }
    if k == 0 {
        assert(case[0].action is Open);
    } else if k == 1 {
        assert(events(case[1].action, reply) == seq![happened[1]]);
        assert(events(case[0].action, w[0]) == seq![happened[0]]);
    } else if k == 2 {
        assert(events(case[2].action, reply) == seq![happened[2]]);
        assert(events(case[1].action, w[1]) == seq![happened[1]]);
        assert(events(case[0].action, w[0]) == seq![happened[0]]);
    } else if k == 3 {
        assert(events(case[3].action, reply) == seq![happened[3]]);
        assert(events(case[2].action, w[2]) == seq![happened[2]]);
        assert(events(case[1].action, w[1]) == seq![happened[1]]);
    }
}

proof fn lemma_ttl_rules(
    short: nat,
    slack: nat,
    w: Seq<KvReplyView>,
    reply: KvReplyView,
    rule: Seq<char>,
)
    requires
        unbroken(ttl_case(short, slack), w),
        w.len() < 4,
        breach(ttl_case(short, slack)[w.len() as int], reply) == Some(
            ViolationView::Broken { rule },
        ),
    ensures
        is_named(
            told(ttl_case(short, slack), w) + events(
                ttl_case(short, slack)[w.len() as int].action,
                reply,
            ),
            rule,
        ),
{
    lemma_keys_differ();
    let case = ttl_case(short, slack);
    let k = w.len() as int;
    let happened = lemma_last_events(case, w, reply, rule);
    assert(seq![happened[k]][0] == happened[k]);
    if k >= 1 {
        assert(seq![happened[k - 1]][0] == happened[k - 1]);
    }
    if k >= 2 {
        assert(seq![happened[k - 2]][0] == happened[k - 2]);
    }
    if k == 0 {
        assert(case[0].action is Open);
    } else if k == 1 {
        assert(events(case[1].action, reply) == seq![happened[1]]);
        assert(events(case[0].action, w[0]) == seq![happened[0]]);
    } else if k == 2 {
        assert(events(case[2].action, reply) == seq![happened[2]]);
        assert(events(case[1].action, w[1]) == seq![happened[1]]);
        assert(events(case[0].action, w[0]) == seq![happened[0]]);
    } else if k == 3 {
        assert(events(case[3].action, reply) == seq![happened[3]]);
        assert(events(case[2].action, w[2]) == seq![happened[2]]);
        assert(events(case[1].action, w[1]) == seq![happened[1]]);
    }
}

proof fn lemma_overwrite_rules(
    short: nat,
    slack: nat,
    w: Seq<KvReplyView>,
    reply: KvReplyView,
    rule: Seq<char>,
)
    requires
        unbroken(overwrite_case(short, slack), w),
        w.len() < 5,
        breach(overwrite_case(short, slack)[w.len() as int], reply) == Some(
            ViolationView::Broken { rule },
        ),
    ensures
        is_named(
            told(overwrite_case(short, slack), w) + events(
                overwrite_case(short, slack)[w.len() as int].action,
                reply,
            ),
            rule,
        ),
{
    lemma_keys_differ();
    let case = overwrite_case(short, slack);
    let k = w.len() as int;
    let happened = lemma_last_events(case, w, reply, rule);
    assert(seq![happened[k]][0] == happened[k]);
    if k >= 1 {
        assert(seq![happened[k - 1]][0] == happened[k - 1]);
    }
    if k >= 2 {
        assert(seq![happened[k - 2]][0] == happened[k - 2]);
    }
    if k == 0 {
        assert(case[0].action is Open);
    } else if k == 1 {
        assert(events(case[1].action, reply) == seq![happened[1]]);
        assert(events(case[0].action, w[0]) == seq![happened[0]]);
    } else if k == 2 {
        assert(events(case[2].action, reply) == seq![happened[2]]);
        assert(events(case[1].action, w[1]) == seq![happened[1]]);
        assert(events(case[0].action, w[0]) == seq![happened[0]]);
    } else if k == 3 {
        assert(events(case[3].action, reply) == seq![happened[3]]);
        assert(events(case[2].action, w[2]) == seq![happened[2]]);
        assert(events(case[1].action, w[1]) == seq![happened[1]]);
    } else if k == 4 {
        assert(events(case[4].action, reply) == seq![happened[4]]);
        assert(events(case[3].action, w[3]) == seq![happened[3]]);
        assert(events(case[2].action, w[2]) == seq![happened[2]]);
    }
}

proof fn lemma_single_winner_rules(
    w: Seq<KvReplyView>,
    reply: KvReplyView,
    rule: Seq<char>,
)
    requires
        unbroken(single_winner_case(), w),
        w.len() < 6,
        breach(single_winner_case()[w.len() as int], reply) == Some(
            ViolationView::Broken { rule },
        ),
    ensures
        is_named(
            told(single_winner_case(), w) + events(
                single_winner_case()[w.len() as int].action,
                reply,
            ),
            rule,
        ),
{
    lemma_keys_differ();
    let case = single_winner_case();
    let k = w.len() as int;
    let happened = lemma_last_events(case, w, reply, rule);
    assert(seq![happened[k]][0] == happened[k]);
    if k >= 1 {
        assert(seq![happened[k - 1]][0] == happened[k - 1]);
    }
    if k >= 2 {
        assert(seq![happened[k - 2]][0] == happened[k - 2]);
    }
    if k == 0 {
        assert(case[0].action is Open);
    } else if k == 1 {
        assert(events(case[1].action, reply) == seq![happened[1]]);
        assert(events(case[0].action, w[0]) == seq![happened[0]]);
    } else if k == 2 {
        assert(events(case[2].action, reply) == seq![happened[2]]);
        assert(events(case[1].action, w[1]) == seq![happened[1]]);
        assert(events(case[0].action, w[0]) == seq![happened[0]]);
    } else if k == 3 {
        assert(events(case[3].action, reply) == seq![happened[3]]);
        assert(events(case[2].action, w[2]) == seq![happened[2]]);
        assert(events(case[1].action, w[1]) == seq![happened[1]]);
    } else if k == 4 {
        assert(events(case[4].action, reply) == seq![happened[4]]);
        assert(events(case[3].action, w[3]) == seq![happened[3]]);
        assert(events(case[2].action, w[2]) == seq![happened[2]]);
    } else if k == 5 {
        assert(events(case[5].action, reply) == seq![happened[5]]);
        assert(events(case[4].action, w[4]) == seq![happened[4]]);
        assert(events(case[3].action, w[3]) == seq![happened[3]]);
    }
}

proof fn lemma_incr_missing_rules(
    w: Seq<KvReplyView>,
    reply: KvReplyView,
    rule: Seq<char>,
)
    requires
        unbroken(incr_missing_case(), w),
        w.len() < 4,
        breach(incr_missing_case()[w.len() as int], reply) == Some(
            ViolationView::Broken { rule },
        ),
    ensures
        is_named(
            told(incr_missing_case(), w) + events(
                incr_missing_case()[w.len() as int].action,
                reply,
            ),
            rule,
        ),
{
    lemma_keys_differ();
    let case = incr_missing_case();
    let k = w.len() as int;
    let happened = lemma_last_events(case, w, reply, rule);
    assert(seq![happened[k]][0] == happened[k]);
    if k >= 1 {
        assert(seq![happened[k - 1]][0] == happened[k - 1]);
    }
    if k >= 2 {
        assert(seq![happened[k - 2]][0] == happened[k - 2]);
    }
    if k == 0 {
        assert(case[0].action is Open);
    } else if k == 1 {
        assert(events(case[1].action, reply) == seq![happened[1]]);
        assert(events(case[0].action, w[0]) == seq![happened[0]]);
    } else if k == 2 {
        assert(events(case[2].action, reply) == seq![happened[2]]);
        assert(events(case[1].action, w[1]) == seq![happened[1]]);
        assert(events(case[0].action, w[0]) == seq![happened[0]]);
    } else if k == 3 {
        assert(events(case[3].action, reply) == seq![happened[3]]);
        assert(events(case[2].action, w[2]) == seq![happened[2]]);
        assert(events(case[1].action, w[1]) == seq![happened[1]]);
    }
}

proof fn lemma_incr_accumulates_rules(
    w: Seq<KvReplyView>,
    reply: KvReplyView,
    rule: Seq<char>,
)
    requires
        unbroken(incr_accumulates_case(), w),
        w.len() < 5,
        breach(incr_accumulates_case()[w.len() as int], reply) == Some(
            ViolationView::Broken { rule },
        ),
    ensures
        is_named(
            told(incr_accumulates_case(), w) + events(
                incr_accumulates_case()[w.len() as int].action,
                reply,
            ),
            rule,
        ),
{
    lemma_keys_differ();
    let case = incr_accumulates_case();
    let k = w.len() as int;
    let happened = lemma_last_events(case, w, reply, rule);
    assert(seq![happened[k]][0] == happened[k]);
    if k >= 1 {
        assert(seq![happened[k - 1]][0] == happened[k - 1]);
    }
    if k >= 2 {
        assert(seq![happened[k - 2]][0] == happened[k - 2]);
    }
    if k == 0 {
        assert(case[0].action is Open);
    } else if k == 1 {
        assert(events(case[1].action, reply) == seq![happened[1]]);
        assert(events(case[0].action, w[0]) == seq![happened[0]]);
    } else if k == 2 {
        assert(events(case[2].action, reply) == seq![happened[2]]);
        assert(events(case[1].action, w[1]) == seq![happened[1]]);
        assert(events(case[0].action, w[0]) == seq![happened[0]]);
    } else if k == 3 {
        assert(events(case[3].action, reply) == seq![happened[3]]);
        assert(events(case[2].action, w[2]) == seq![happened[2]]);
        assert(events(case[1].action, w[1]) == seq![happened[1]]);
    } else if k == 4 {
        assert(events(case[4].action, reply) == seq![happened[4]]);
        assert(events(case[3].action, w[3]) == seq![happened[3]]);
        assert(events(case[2].action, w[2]) == seq![happened[2]]);
    }
}

proof fn lemma_incr_burst_rules(
    w: Seq<KvReplyView>,
    reply: KvReplyView,
    rule: Seq<char>,
)
    requires
        unbroken(incr_burst_case(), w),
        w.len() < 3,
        breach(incr_burst_case()[w.len() as int], reply) == Some(
            ViolationView::Broken { rule },
        ),
    ensures
        is_named(
            told(incr_burst_case(), w) + events(
                incr_burst_case()[w.len() as int].action,
                reply,
            ),
            rule,
        ),
{
    lemma_keys_differ();
    let case = incr_burst_case();
    let k = w.len() as int;
    if k == 0 {
        assert(case[0].action is Open);
    } else if k == 1 {
        assert(case[1].action is Burst);
        assert(case[1].expected is AllDistinct);
    } else {
        assert(breach(case[1], w[1]) is None);
        let answers = w[1]->Burst_0;
        let burst = events(case[1].action, w[1]);
        assert(burst.len() == 40);
        let last = events(case[2].action, reply);
        assert(last.len() == 1);
        let happened = told(case, w) + last;
        assert(w[1] == w.last());
        assert(told(case, w) =~= told(case, w.drop_last()) + burst);
        assert(happened[happened.len() - 1] == last[0]);
        assert(happened[happened.len() - 2] == burst[39]);
    }
}

proof fn lemma_incr_rejects_rules(
    w: Seq<KvReplyView>,
    reply: KvReplyView,
    rule: Seq<char>,
)
    requires
        unbroken(incr_rejects_case(), w),
        w.len() < 4,
        breach(incr_rejects_case()[w.len() as int], reply) == Some(
            ViolationView::Broken { rule },
        ),
    ensures
        is_named(
            told(incr_rejects_case(), w) + events(
                incr_rejects_case()[w.len() as int].action,
                reply,
            ),
            rule,
        ),
{
    lemma_keys_differ();
    let case = incr_rejects_case();
    let k = w.len() as int;
    let happened = lemma_last_events(case, w, reply, rule);
    assert(seq![happened[k]][0] == happened[k]);
    if k >= 1 {
        assert(seq![happened[k - 1]][0] == happened[k - 1]);
    }
    if k >= 2 {
        assert(seq![happened[k - 2]][0] == happened[k - 2]);
    }
    if k == 0 {
        assert(case[0].action is Open);
    } else if k == 1 {
        assert(events(case[1].action, reply) == seq![happened[1]]);
        assert(events(case[0].action, w[0]) == seq![happened[0]]);
    } else if k == 2 {
        assert(events(case[2].action, reply) == seq![happened[2]]);
        assert(events(case[1].action, w[1]) == seq![happened[1]]);
        assert(events(case[0].action, w[0]) == seq![happened[0]]);
    } else if k == 3 {
        assert(events(case[3].action, reply) == seq![happened[3]]);
        assert(events(case[2].action, w[2]) == seq![happened[2]]);
        assert(events(case[1].action, w[1]) == seq![happened[1]]);
    }
}

proof fn lemma_incr_ttl_rules(
    short: nat,
    slack: nat,
    w: Seq<KvReplyView>,
    reply: KvReplyView,
    rule: Seq<char>,
)
    requires
        unbroken(incr_ttl_case(short, slack), w),
        w.len() < 11,
        breach(incr_ttl_case(short, slack)[w.len() as int], reply) == Some(
            ViolationView::Broken { rule },
        ),
    ensures
        is_named(
            told(incr_ttl_case(short, slack), w) + events(
                incr_ttl_case(short, slack)[w.len() as int].action,
                reply,
            ),
            rule,
        ),
{
    lemma_keys_differ();
    let case = incr_ttl_case(short, slack);
    let k = w.len() as int;
    let happened = lemma_last_events(case, w, reply, rule);
    assert(seq![happened[k]][0] == happened[k]);
    if k >= 1 {
        assert(seq![happened[k - 1]][0] == happened[k - 1]);
    }
    if k >= 2 {
        assert(seq![happened[k - 2]][0] == happened[k - 2]);
    }
    if k == 0 {
        assert(case[0].action is Open);
    } else if k == 1 {
        assert(events(case[1].action, reply) == seq![happened[1]]);
        assert(events(case[0].action, w[0]) == seq![happened[0]]);
    } else if k == 2 {
        assert(events(case[2].action, reply) == seq![happened[2]]);
        assert(events(case[1].action, w[1]) == seq![happened[1]]);
        assert(events(case[0].action, w[0]) == seq![happened[0]]);
    } else if k == 3 {
        assert(events(case[3].action, reply) == seq![happened[3]]);
        assert(events(case[2].action, w[2]) == seq![happened[2]]);
        assert(events(case[1].action, w[1]) == seq![happened[1]]);
    } else if k == 4 {
        assert(events(case[4].action, reply) == seq![happened[4]]);
        assert(events(case[3].action, w[3]) == seq![happened[3]]);
        assert(events(case[2].action, w[2]) == seq![happened[2]]);
    } else if k == 5 {
        assert(events(case[5].action, reply) == seq![happened[5]]);
        assert(events(case[4].action, w[4]) == seq![happened[4]]);
        assert(events(case[3].action, w[3]) == seq![happened[3]]);
    } else if k == 6 {
        assert(events(case[6].action, reply) == seq![happened[6]]);
        assert(events(case[5].action, w[5]) == seq![happened[5]]);
        assert(events(case[4].action, w[4]) == seq![happened[4]]);
    } else if k == 7 {
        assert(events(case[7].action, reply) == seq![happened[7]]);
        assert(events(case[6].action, w[6]) == seq![happened[6]]);
        assert(events(case[5].action, w[5]) == seq![happened[5]]);
    } else if k == 8 {
        assert(events(case[8].action, reply) == seq![happened[8]]);
        assert(events(case[7].action, w[7]) == seq![happened[7]]);
        assert(events(case[6].action, w[6]) == seq![happened[6]]);
    } else if k == 9 {
        assert(events(case[9].action, reply) == seq![happened[9]]);
        assert(events(case[8].action, w[8]) == seq![happened[8]]);
        assert(events(case[7].action, w[7]) == seq![happened[7]]);
    } else if k == 10 {
        assert(events(case[10].action, reply) == seq![happened[10]]);
        assert(events(case[9].action, w[9]) == seq![happened[9]]);
        assert(events(case[8].action, w[8]) == seq![happened[8]]);
    }
}

/// What was said of the last event of a case is said of the last event of the run.
proof fn lemma_named_in_run(
    a: Seq<KvStepView>,
    case: Seq<KvStepView>,
    w: Seq<KvReplyView>,
    reply: KvReplyView,
    rule: Seq<char>,
)
    requires
        unbroken(a + case, w),
        a.len() <= w.len() < a.len() + case.len(),
        is_named(
            told(case, w.skip(a.len() as int)) + events(
                case[w.len() - a.len()].action,
                reply,
            ),
            rule,
        ),
    ensures
        is_named(told(a + case, w) + events((a + case)[w.len() as int].action, reply), rule),
{
    lemma_told_splits(a, case, w);
    let before = told(a, w.take(a.len() as int));
    let happened = told(case, w.skip(a.len() as int)) + events(
        case[w.len() - a.len()].action,
        reply,
    );
    let all = told(a + case, w) + events((a + case)[w.len() as int].action, reply);
    assert((a + case)[w.len() as int] == case[w.len() - a.len()]);
    assert(all =~= before + happened);
    let (m, n) = (all.len(), happened.len());
    assert(all[m - 1] == happened[n - 1]);
    assert(all[m - 2] == happened[n - 2]);
    if n >= 3 {
        assert(all[m - 3] == happened[n - 3]);
    }
}

/// A step of a script that is a step of one of its cases.
proof fn lemma_step_in_case(
    script: Seq<KvStepView>,
    a: Seq<KvStepView>,
    case: Seq<KvStepView>,
    w: Seq<KvReplyView>,
    reply: KvReplyView,
)
    requires
        (a + case).is_prefix_of(script),
        unbroken(script, w),
        a.len() <= w.len() < a.len() + case.len(),
    ensures
        unbroken(a + case, w),
        unbroken(case, w.skip(a.len() as int)),
        case[w.len() - a.len()] == script[w.len() as int],
        (a + case)[w.len() as int] == script[w.len() as int],
        told(script, w) == told(a + case, w),
{
    let both = a + case;
    let rest = script.skip(both.len() as int);
    assert(script =~= both + rest) by {
        assert forall|i: int| 0 <= i < both.len() implies script[i] == both[i] by {
            assert(script.subrange(0, both.len() as int)[i] == both[i]);
        }
    }
    assert forall|i: int| #![trigger w[i]] 0 <= i < w.len() implies breach(
        both[i],
        w[i],
    ) is None by {
        assert(script[i] == both[i]);
    }
    lemma_told_of_prefix(both, rest, w);
    lemma_told_splits(a, case, w);
}

/// A run that has ended did so with its last event.
proof fn lemma_broken_transcript(script: Seq<KvStepView>, replies: Seq<KvReplyView>) -> (r: (
    Seq<KvReplyView>,
    KvReplyView,
))
    requires
        KvContractRunView::start(script).observe_all(replies).violation matches Some(v)
            && v is Broken,
    ensures
        ({
            let run = KvContractRunView::start(script).observe_all(replies);
            let (w, reply) = r;
            &&& w.len() < script.len()
            &&& unbroken(script, w)
            &&& breach(script[w.len() as int], reply) == run.violation
            &&& transcript(script, replies) == told(script, w) + events(
                script[w.len() as int].action,
                reply,
            )
        }),
    decreases replies.len(),
{
    let earlier = replies.drop_last();
    let before = KvContractRunView::start(script).observe_all(earlier);
    lemma_transcript(script, earlier);
    if before.violation is Some {
        lemma_broken_transcript(script, earlier)
    } else {
        let action = script[before.kept as int].action;
        lemma_burst_events(action, before.burst, seq![]);
        assert(before.in_progress());
        if before.burst.len() == 0 {
            assert(before.burst =~= seq![]);
        }
        let w = wholes(script, earlier);
        assert(transcript(script, replies) =~= told(script, w) + events(action, replies.last()));
        (w, replies.last())
    }
}

/// The beginning of a beginning is a beginning.
proof fn lemma_prefix_of_sum(a: Seq<KvStepView>, b: Seq<KvStepView>, script: Seq<KvStepView>)
    requires
        (a + b).is_prefix_of(script),
    ensures
        a.is_prefix_of(script),
{
    assert forall|i: int| 0 <= i < a.len() implies script[i] == a[i] by {
        assert(script.subrange(0, (a + b).len() as int)[i] == (a + b)[i]);
    }
    assert(script.subrange(0, a.len() as int) =~= a);
}

/// A run that ends with a broken rule says what it is that was broken: the text that
/// belongs to the last answer, in view of what happened before it.
#[verifier::rlimit(60)]
#[verifier::spinoff_prover]
pub proof fn law_broken_run_names_its_rule(
    short: nat,
    slack: nat,
    replies: Seq<KvReplyView>,
    rule: Seq<char>,
)
    requires
        KvContractRunView::start(battery(short, slack)).observe_all(replies).violation == Some(
            ViolationView::Broken { rule },
        ),
    ensures
        ({
            let log = transcript(battery(short, slack), replies);
            let n = log.len();
            let prior = if n >= 3 {
                log[n - 3]
            } else {
                KvEvent::Opened
            };
            n >= 2 && rule == rule_of(prior, log[n - 2], log[n - 1])
        }),
{
    let script = battery(short, slack);
    let log = transcript(script, replies);
    let (w, reply) = lemma_broken_transcript(script, replies);
    let b0 = Seq::<KvStepView>::empty();
    let b1 = b0 + get_missing_case();
    let b2 = b1 + put_get_case();
    let b3 = b2 + delete_case();
    let b4 = b3 + list_prefix_case();
    let b5 = b4 + expire_case();
    let b6 = b5 + ttl_case(short, slack);
    let b7 = b6 + overwrite_case(short, slack);
    let b8 = b7 + single_winner_case();
    let b9 = b8 + incr_missing_case();
    let b10 = b9 + incr_accumulates_case();
    let b11 = b10 + incr_burst_case();
    let b12 = b11 + incr_rejects_case();
    let b13 = b12 + incr_ttl_case(short, slack);
    assert(b1 =~= get_missing_case());
    assert(b13 =~= script);
    assert(b13.is_prefix_of(script));
    lemma_prefix_of_sum(b12, incr_ttl_case(short, slack), script);
    if b12.len() <= w.len() < b13.len() {
        assert(is_named(log, rule)) by {
            lemma_step_in_case(script, b12, incr_ttl_case(short, slack), w, reply);
            lemma_incr_ttl_rules(short, slack, w.skip(b12.len() as int), reply, rule);
            lemma_named_in_run(b12, incr_ttl_case(short, slack), w, reply, rule);
        }
    }
    lemma_prefix_of_sum(b11, incr_rejects_case(), script);
    if b11.len() <= w.len() < b12.len() {
        assert(is_named(log, rule)) by {
            lemma_step_in_case(script, b11, incr_rejects_case(), w, reply);
            lemma_incr_rejects_rules(w.skip(b11.len() as int), reply, rule);
            lemma_named_in_run(b11, incr_rejects_case(), w, reply, rule);
        }
    }
    lemma_prefix_of_sum(b10, incr_burst_case(), script);
    if b10.len() <= w.len() < b11.len() {
        assert(is_named(log, rule)) by {
            lemma_step_in_case(script, b10, incr_burst_case(), w, reply);
            lemma_incr_burst_rules(w.skip(b10.len() as int), reply, rule);
            lemma_named_in_run(b10, incr_burst_case(), w, reply, rule);
        }
    }
    lemma_prefix_of_sum(b9, incr_accumulates_case(), script);
    if b9.len() <= w.len() < b10.len() {
        assert(is_named(log, rule)) by {
            lemma_step_in_case(script, b9, incr_accumulates_case(), w, reply);
            lemma_incr_accumulates_rules(w.skip(b9.len() as int), reply, rule);
            lemma_named_in_run(b9, incr_accumulates_case(), w, reply, rule);
        }
    }
    lemma_prefix_of_sum(b8, incr_missing_case(), script);
    if b8.len() <= w.len() < b9.len() {
        assert(is_named(log, rule)) by {
            lemma_step_in_case(script, b8, incr_missing_case(), w, reply);
            lemma_incr_missing_rules(w.skip(b8.len() as int), reply, rule);
            lemma_named_in_run(b8, incr_missing_case(), w, reply, rule);
        }
    }
    lemma_prefix_of_sum(b7, single_winner_case(), script);
    if b7.len() <= w.len() < b8.len() {
        assert(is_named(log, rule)) by {
            lemma_step_in_case(script, b7, single_winner_case(), w, reply);
            lemma_single_winner_rules(w.skip(b7.len() as int), reply, rule);
            lemma_named_in_run(b7, single_winner_case(), w, reply, rule);
        }
    }
    lemma_prefix_of_sum(b6, overwrite_case(short, slack), script);
    if b6.len() <= w.len() < b7.len() {
        assert(is_named(log, rule)) by {
            lemma_step_in_case(script, b6, overwrite_case(short, slack), w, reply);
            lemma_overwrite_rules(short, slack, w.skip(b6.len() as int), reply, rule);
            lemma_named_in_run(b6, overwrite_case(short, slack), w, reply, rule);
        }
    }
    lemma_prefix_of_sum(b5, ttl_case(short, slack), script);
    if b5.len() <= w.len() < b6.len() {
        assert(is_named(log, rule)) by {
            lemma_step_in_case(script, b5, ttl_case(short, slack), w, reply);
            lemma_ttl_rules(short, slack, w.skip(b5.len() as int), reply, rule);
            lemma_named_in_run(b5, ttl_case(short, slack), w, reply, rule);
        }
    }
    lemma_prefix_of_sum(b4, expire_case(), script);
    if b4.len() <= w.len() < b5.len() {
        assert(is_named(log, rule)) by {
            lemma_step_in_case(script, b4, expire_case(), w, reply);
            lemma_expire_rules(w.skip(b4.len() as int), reply, rule);
            lemma_named_in_run(b4, expire_case(), w, reply, rule);
        }
    }
    lemma_prefix_of_sum(b3, list_prefix_case(), script);
    if b3.len() <= w.len() < b4.len() {
        assert(is_named(log, rule)) by {
            lemma_step_in_case(script, b3, list_prefix_case(), w, reply);
            lemma_list_prefix_rules(w.skip(b3.len() as int), reply, rule);
            lemma_named_in_run(b3, list_prefix_case(), w, reply, rule);
        }
    }
    lemma_prefix_of_sum(b2, delete_case(), script);
    if b2.len() <= w.len() < b3.len() {
        assert(is_named(log, rule)) by {
            lemma_step_in_case(script, b2, delete_case(), w, reply);
            lemma_delete_rules(w.skip(b2.len() as int), reply, rule);
            lemma_named_in_run(b2, delete_case(), w, reply, rule);
        }
    }
    lemma_prefix_of_sum(b1, put_get_case(), script);
    if b1.len() <= w.len() < b2.len() {
        assert(is_named(log, rule)) by {
            lemma_step_in_case(script, b1, put_get_case(), w, reply);
            lemma_put_get_rules(w.skip(b1.len() as int), reply, rule);
            lemma_named_in_run(b1, put_get_case(), w, reply, rule);
        }
    }
    lemma_prefix_of_sum(b0, get_missing_case(), script);
    if b0.len() <= w.len() < b1.len() {
        assert(is_named(log, rule)) by {
            lemma_step_in_case(script, b0, get_missing_case(), w, reply);
            lemma_get_missing_rules(w.skip(b0.len() as int), reply, rule);
            lemma_named_in_run(b0, get_missing_case(), w, reply, rule);
        }
    }
    assert(is_named(log, rule));
}

} // verus!
