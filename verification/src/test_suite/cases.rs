//! The cases of the battery, each a list of steps against a fresh store.

use vstd::prelude::*;
use vstd::string::*;

use super::script::{
    text_bytes, texts, Expected, ExpectedView, KvAction, KvActionView, KvStep, KvStepView,
};
use super::KvContractTiming;
use crate::kv_model::KvOp;
use crate::payload::from_static;
use crate::time::{span_of, Duration, MAX_DURATION_NANOS, NANOS_PER_SEC};

verus! {

/// How many callers increment at once in the burst.
pub const CALLERS: usize = 8;

/// How often each of them increments.
pub const PER_CALLER: usize = 5;

/// The contents of a list of steps.
pub open spec fn steps_view(steps: Seq<KvStep>) -> Seq<KvStepView> {
    steps.map_values(|s: KvStep| s@)
}

pub open spec fn opened() -> KvStepView {
    KvStepView { action: KvActionView::Open, expected: ExpectedView::Ready }
}

pub open spec fn paused(span: nat) -> KvStepView {
    KvStepView { action: KvActionView::Pause(span), expected: ExpectedView::Ready }
}

pub open spec fn put(key: Seq<char>, text: Seq<char>, ttl: Option<nat>) -> KvStepView {
    KvStepView {
        action: KvActionView::Call(KvOp::Put { key, bytes: text_bytes(text), ttl }),
        expected: ExpectedView::Accepted,
    }
}

pub open spec fn claim(
    key: Seq<char>,
    text: Seq<char>,
    won: bool,
    otherwise: Seq<char>,
) -> KvStepView {
    KvStepView {
        action: KvActionView::Call(KvOp::PutIfAbsent { key, bytes: text_bytes(text), ttl: None }),
        expected: ExpectedView::Reports { outcome: won, otherwise },
    }
}

pub open spec fn delete(key: Seq<char>, existed: bool, otherwise: Seq<char>) -> KvStepView {
    KvStepView {
        action: KvActionView::Call(KvOp::Delete { key }),
        expected: ExpectedView::Reports { outcome: existed, otherwise },
    }
}

pub open spec fn expire(
    key: Seq<char>,
    ttl: Option<nat>,
    existed: bool,
    otherwise: Seq<char>,
) -> KvStepView {
    KvStepView {
        action: KvActionView::Call(KvOp::Expire { key, ttl }),
        expected: ExpectedView::Reports { outcome: existed, otherwise },
    }
}

pub open spec fn get(key: Seq<char>, expected: ExpectedView) -> KvStepView {
    KvStepView { action: KvActionView::Call(KvOp::Get { key }), expected }
}

pub open spec fn incr(
    key: Seq<char>,
    delta: int,
    ttl: Option<nat>,
    expected: ExpectedView,
) -> KvStepView {
    KvStepView { action: KvActionView::Call(KvOp::Incr { key, delta, ttl }), expected }
}

pub open spec fn counts(value: int, otherwise: Seq<char>) -> ExpectedView {
    ExpectedView::Counts { value, otherwise }
}

pub open spec fn holds(text: Seq<char>, missing: Seq<char>, otherwise: Seq<char>) -> ExpectedView {
    ExpectedView::Holds { bytes: text_bytes(text), missing, otherwise }
}

/// A claim of an absent key wins, one of a present key loses and does not
/// overwrite, and a deleted key can be claimed again.
pub open spec fn single_winner_case() -> Seq<KvStepView> {
    seq![
        opened(),
        claim("claim"@, "a"@, true, "put_if_absent on an absent key must return true"@),
        claim("claim"@, "b"@, false, "put_if_absent on a present key must return false"@),
        get(
            "claim"@,
            holds(
                "a"@,
                "claim key exists"@,
                "a losing put_if_absent must not overwrite the winner's value"@,
            ),
        ),
        delete("claim"@, true, "delete of a present key must return true"@),
        claim("claim"@, "c"@, true, "put_if_absent after delete must return true"@),
    ]
}

/// A key that was never written is missing.
pub open spec fn get_missing_case() -> Seq<KvStepView> {
    seq![
        opened(),
        get("nope"@, ExpectedView::Missing { otherwise: "get on missing key must return None"@ }),
    ]
}

/// A value reads back as it was written.
pub open spec fn put_get_case() -> Seq<KvStepView> {
    seq![
        opened(),
        put("k"@, "v"@, None),
        get("k"@, holds("v"@, "just-put key must exist"@, "a value must read back as written"@)),
    ]
}

/// The first deletion reports the key, the second does not, and it is gone.
pub open spec fn delete_case() -> Seq<KvStepView> {
    seq![
        opened(),
        put("k"@, "v"@, None),
        delete("k"@, true, "first delete returns true"@),
        delete("k"@, false, "double-delete is idempotent (returns false)"@),
        get("k"@, ExpectedView::Missing { otherwise: "deleted key must be gone"@ }),
    ]
}

/// A listing has the keys under its prefix and no others.
pub open spec fn list_prefix_case() -> Seq<KvStepView> {
    seq![
        opened(),
        put("a:1"@, "a1"@, None),
        put("a:2"@, "a2"@, None),
        put("b:1"@, "b1"@, None),
        KvStepView {
            action: KvActionView::Call(KvOp::ListPrefix { prefix: "a:"@, limit: 100 }),
            expected: ExpectedView::Lists {
                count: 2,
                listed: seq!["a:1"@, "a:2"@],
                unlisted: seq!["b:1"@],
                otherwise: "prefix `a:` must yield exactly 2 entries"@,
            },
        },
    ]
}

/// Setting a TTL reports whether the key is there.
pub open spec fn expire_case() -> Seq<KvStepView> {
    let minute = Some((60 * NANOS_PER_SEC) as nat);
    seq![
        opened(),
        put("k"@, "v"@, None),
        expire("k"@, minute, true, "expire on existing key returns true"@),
        expire("nope"@, minute, false, "expire on missing key returns false"@),
    ]
}

/// A value with a TTL is gone once it has elapsed.
pub open spec fn ttl_case(short: nat, slack: nat) -> Seq<KvStepView> {
    seq![
        opened(),
        put("k"@, "v"@, Some(short)),
        paused(short + slack),
        get("k"@, ExpectedView::Missing { otherwise: "key must be purged after TTL elapses"@ }),
    ]
}

/// Overwriting without a TTL replaces the value and clears the TTL.
pub open spec fn overwrite_case(short: nat, slack: nat) -> Seq<KvStepView> {
    seq![
        opened(),
        put("k"@, "old"@, Some(short)),
        put("k"@, "new"@, None),
        paused(short + slack),
        get("k"@, holds("new"@, "overwrite must clear TTL"@, "overwrite must replace the value"@)),
    ]
}

/// A counter starts at 0, also after it was deleted.
pub open spec fn incr_missing_case() -> Seq<KvStepView> {
    seq![
        opened(),
        incr("ctr"@, 5, None, counts(5, "incr on a missing key must start from 0"@)),
        delete("ctr"@, true, "delete of a present key must return true"@),
        incr("ctr"@, 3, None, counts(3, "incr after delete must start from 0 again"@)),
    ]
}

/// Increments add up, and the counter is stored in ASCII base 10.
pub open spec fn incr_accumulates_case() -> Seq<KvStepView> {
    seq![
        opened(),
        incr("ctr"@, 10, None, counts(10, "positive delta"@)),
        incr("ctr"@, -3, None, counts(7, "negative delta"@)),
        incr("ctr"@, 0, None, counts(7, "zero delta reads"@)),
        get(
            "ctr"@,
            holds(
                "7"@,
                "counter key exists"@,
                "counter must round-trip through get as ASCII base-10"@,
            ),
        ),
    ]
}

/// Of many increments at once none is lost.
pub open spec fn incr_burst_case() -> Seq<KvStepView> {
    seq![
        opened(),
        KvStepView {
            action: KvActionView::Burst(
                KvOp::Incr { key: "ctr"@, delta: 1, ttl: None },
                (CALLERS * PER_CALLER) as nat,
            ),
            expected: ExpectedView::AllDistinct {
                otherwise: "two callers observed the same post-increment value"@,
            },
        },
        incr(
            "ctr"@,
            0,
            None,
            counts(
                CALLERS * PER_CALLER,
                "increments must not be lost under concurrent callers"@,
            ),
        ),
    ]
}

/// An increment of a value that is no counter fails and leaves it as it was.
pub open spec fn incr_rejects_case() -> Seq<KvStepView> {
    seq![
        opened(),
        put("blob"@, "not-a-number"@, None),
        incr(
            "blob"@,
            1,
            None,
            ExpectedView::Refuses { otherwise: "incr on a non-integer value must error"@ },
        ),
        get(
            "blob"@,
            holds("not-a-number"@, "value survives"@, "a failed incr must not clobber the value"@),
        ),
    ]
}

/// An idle counter is gone once its TTL has elapsed; each increment arms the TTL
/// anew.
pub open spec fn incr_ttl_case(short: nat, slack: nat) -> Seq<KvStepView> {
    let long = short * 3;
    seq![
        opened(),
        incr("idle"@, 7, Some(short), counts(7, "incr on a missing key must start from 0"@)),
        paused(short + slack),
        incr("idle"@, 2, Some(short), counts(2, "an expired counter must restart from 0"@)),
        incr("live"@, 1, Some(long), counts(1, "incr on a missing key must start from 0"@)),
        paused(short + short / 2),
        incr(
            "live"@,
            1,
            Some(long),
            counts(2, "refresh before expiry must see the accumulated count"@),
        ),
        paused(short + short / 2 + short / 5),
        get(
            "live"@,
            ExpectedView::Present {
                otherwise: "a refreshed counter must outlive the first call's TTL arm"@,
            },
        ),
        paused(long + slack),
        get(
            "live"@,
            ExpectedView::Missing {
                otherwise: "an idle counter must purge after its sliding TTL"@,
            },
        ),
    ]
}

fn step_open() -> (r: KvStep)
    ensures
        r@ == opened(),
{
    KvStep { action: KvAction::Open, expected: Expected::Ready }
}

fn step_pause(span: Duration) -> (r: KvStep)
    ensures
        r@ == paused(span@),
{
    KvStep { action: KvAction::Pause { span }, expected: Expected::Ready }
}

fn step_put(key: &'static str, text: &'static str, ttl: Option<Duration>) -> (r: KvStep)
    ensures
        r@ == put(key@, text@, span_of(ttl)),
{
    KvStep {
        action: KvAction::Put { key, value: from_static(text.as_bytes()), ttl },
        expected: Expected::Accepted,
    }
}

fn step_claim(
    key: &'static str,
    text: &'static str,
    won: bool,
    otherwise: &'static str,
) -> (r: KvStep)
    ensures
        r@ == claim(key@, text@, won, otherwise@),
{
    KvStep {
        action: KvAction::PutIfAbsent { key, value: from_static(text.as_bytes()), ttl: None },
        expected: Expected::Reports { outcome: won, otherwise },
    }
}

fn step_delete(key: &'static str, existed: bool, otherwise: &'static str) -> (r: KvStep)
    ensures
        r@ == delete(key@, existed, otherwise@),
{
    KvStep {
        action: KvAction::Delete { key },
        expected: Expected::Reports { outcome: existed, otherwise },
    }
}

fn step_expire(
    key: &'static str,
    ttl: Option<Duration>,
    existed: bool,
    otherwise: &'static str,
) -> (r: KvStep)
    ensures
        r@ == expire(key@, span_of(ttl), existed, otherwise@),
{
    KvStep {
        action: KvAction::Expire { key, ttl },
        expected: Expected::Reports { outcome: existed, otherwise },
    }
}

fn step_get(key: &'static str, expected: Expected) -> (r: KvStep)
    ensures
        r@ == get(key@, expected@),
{
    KvStep { action: KvAction::Get { key }, expected }
}

fn step_incr(
    key: &'static str,
    delta: i64,
    ttl: Option<Duration>,
    expected: Expected,
) -> (r: KvStep)
    ensures
        r@ == incr(key@, delta as int, span_of(ttl), expected@),
{
    KvStep { action: KvAction::Incr { key, delta, ttl }, expected }
}

fn put_if_absent_is_single_winner() -> (r: Vec<KvStep>)
    ensures
        steps_view(r@) == single_winner_case(),
{
    let steps = vec![
        step_open(),
        // First claim on an absent key wins.
        step_claim("claim", "a", true, "put_if_absent on an absent key must return true"),
        // Second claim on the live key loses and must not overwrite.
        step_claim("claim", "b", false, "put_if_absent on a present key must return false"),
        step_get(
            "claim",
            Expected::Holds {
                bytes: "a",
                missing: "claim key exists",
                otherwise: "a losing put_if_absent must not overwrite the winner's value",
            },
        ),
        // After delete, the slot is claimable again.
        step_delete("claim", true, "delete of a present key must return true"),
        step_claim("claim", "c", true, "put_if_absent after delete must return true"),
    ];
    proof {
        assert(steps_view(steps@) =~= single_winner_case());
    }
    steps
}

fn get_missing_returns_none() -> (r: Vec<KvStep>)
    ensures
        steps_view(r@) == get_missing_case(),
{
    let steps = vec![
        step_open(),
        step_get("nope", Expected::Missing { otherwise: "get on missing key must return None" }),
    ];
    proof {
        assert(steps_view(steps@) =~= get_missing_case());
    }
    steps
}

fn put_then_get_roundtrips() -> (r: Vec<KvStep>)
    ensures
        steps_view(r@) == put_get_case(),
{
    let steps = vec![
        step_open(),
        step_put("k", "v", None),
        step_get(
            "k",
            Expected::Holds {
                bytes: "v",
                missing: "just-put key must exist",
                otherwise: "a value must read back as written",
            },
        ),
    ];
    proof {
        assert(steps_view(steps@) =~= put_get_case());
    }
    steps
}

fn delete_idempotent() -> (r: Vec<KvStep>)
    ensures
        steps_view(r@) == delete_case(),
{
    let steps = vec![
        step_open(),
        step_put("k", "v", None),
        step_delete("k", true, "first delete returns true"),
        step_delete("k", false, "double-delete is idempotent (returns false)"),
        step_get("k", Expected::Missing { otherwise: "deleted key must be gone" }),
    ];
    proof {
        assert(steps_view(steps@) =~= delete_case());
    }
    steps
}

fn list_prefix_filters_correctly() -> (r: Vec<KvStep>)
    ensures
        steps_view(r@) == list_prefix_case(),
{
    let listed: Vec<&'static str> = vec!["a:1", "a:2"];
    let unlisted: Vec<&'static str> = vec!["b:1"];
    proof {
        assert(texts(listed@) =~= seq!["a:1"@, "a:2"@]);
        assert(texts(unlisted@) =~= seq!["b:1"@]);
    }
    let steps = vec![
        step_open(),
        step_put("a:1", "a1", None),
        step_put("a:2", "a2", None),
        step_put("b:1", "b1", None),
        KvStep {
            action: KvAction::ListPrefix { prefix: "a:", limit: 100 },
            expected: Expected::Lists {
                count: 2,
                listed,
                unlisted,
                otherwise: "prefix `a:` must yield exactly 2 entries",
            },
        },
    ];
    proof {
        assert(steps_view(steps@) =~= list_prefix_case());
    }
    steps
}

fn expire_updates_ttl() -> (r: Vec<KvStep>)
    ensures
        steps_view(r@) == expire_case(),
{
    let minute = Duration::from_secs(60);
    let steps = vec![
        step_open(),
        step_put("k", "v", None),
        step_expire("k", Some(minute), true, "expire on existing key returns true"),
        step_expire("nope", Some(minute), false, "expire on missing key returns false"),
    ];
    proof {
        assert(steps_view(steps@) =~= expire_case());
    }
    steps
}

fn ttl_purges_keys(timing: KvContractTiming) -> (r: Vec<KvStep>)
    requires
        timing.short_ttl@ + timing.expiry_slack@ <= MAX_DURATION_NANOS,
    ensures
        steps_view(r@) == ttl_case(timing.short_ttl@, timing.expiry_slack@),
{
    let steps = vec![
        step_open(),
        step_put("k", "v", Some(timing.short_ttl)),
        step_pause(timing.short_ttl.plus(timing.expiry_slack)),
        step_get("k", Expected::Missing { otherwise: "key must be purged after TTL elapses" }),
    ];
    proof {
        assert(steps_view(steps@) =~= ttl_case(timing.short_ttl@, timing.expiry_slack@));
    }
    steps
}

fn overwrite_replaces_value_and_ttl(timing: KvContractTiming) -> (r: Vec<KvStep>)
    requires
        timing.short_ttl@ + timing.expiry_slack@ <= MAX_DURATION_NANOS,
    ensures
        steps_view(r@) == overwrite_case(timing.short_ttl@, timing.expiry_slack@),
{
    let steps = vec![
        step_open(),
        step_put("k", "old", Some(timing.short_ttl)),
        step_put("k", "new", None),
        step_pause(timing.short_ttl.plus(timing.expiry_slack)),
        // Overwrite cleared the TTL; key must still exist.
        step_get(
            "k",
            Expected::Holds {
                bytes: "new",
                missing: "overwrite must clear TTL",
                otherwise: "overwrite must replace the value",
            },
        ),
    ];
    proof {
        assert(steps_view(steps@) =~= overwrite_case(timing.short_ttl@, timing.expiry_slack@));
    }
    steps
}

fn incr_missing_key_starts_at_zero() -> (r: Vec<KvStep>)
    ensures
        steps_view(r@) == incr_missing_case(),
{
    let steps = vec![
        step_open(),
        step_incr(
            "ctr",
            5,
            None,
            Expected::Counts { value: 5, otherwise: "incr on a missing key must start from 0" },
        ),
        // After delete, the counter restarts at 0.
        step_delete("ctr", true, "delete of a present key must return true"),
        step_incr(
            "ctr",
            3,
            None,
            Expected::Counts { value: 3, otherwise: "incr after delete must start from 0 again" },
        ),
    ];
    proof {
        assert(steps_view(steps@) =~= incr_missing_case());
    }
    steps
}

fn incr_accumulates_and_roundtrips_via_get() -> (r: Vec<KvStep>)
    ensures
        steps_view(r@) == incr_accumulates_case(),
{
    let steps = vec![
        step_open(),
        step_incr("ctr", 10, None, Expected::Counts { value: 10, otherwise: "positive delta" }),
        step_incr("ctr", -3, None, Expected::Counts { value: 7, otherwise: "negative delta" }),
        step_incr("ctr", 0, None, Expected::Counts { value: 7, otherwise: "zero delta reads" }),
        step_get(
            "ctr",
            Expected::Holds {
                bytes: "7",
                missing: "counter key exists",
                otherwise: "counter must round-trip through get as ASCII base-10",
            },
        ),
    ];
    proof {
        assert(steps_view(steps@) =~= incr_accumulates_case());
    }
    steps
}

/// No update is lost with many increments in flight at once.
fn incr_no_lost_updates_under_interleaved_callers() -> (r: Vec<KvStep>)
    ensures
        steps_view(r@) == incr_burst_case(),
{
    let steps = vec![
        step_open(),
        KvStep {
            action: KvAction::IncrBurst {
                key: "ctr",
                delta: 1,
                ttl: None,
                callers: CALLERS * PER_CALLER,
            },
            expected: Expected::AllDistinct {
                otherwise: "two callers observed the same post-increment value",
            },
        },
        step_incr(
            "ctr",
            0,
            None,
            Expected::Counts {
                value: (CALLERS * PER_CALLER) as i64,
                otherwise: "increments must not be lost under concurrent callers",
            },
        ),
    ];
    proof {
        assert(steps_view(steps@) =~= incr_burst_case());
    }
    steps
}

fn incr_rejects_non_integer_values() -> (r: Vec<KvStep>)
    ensures
        steps_view(r@) == incr_rejects_case(),
{
    let steps = vec![
        step_open(),
        step_put("blob", "not-a-number", None),
        step_incr(
            "blob",
            1,
            None,
            Expected::Refuses { otherwise: "incr on a non-integer value must error" },
        ),
        // The bad value is left intact.
        step_get(
            "blob",
            Expected::Holds {
                bytes: "not-a-number",
                missing: "value survives",
                otherwise: "a failed incr must not clobber the value",
            },
        ),
    ];
    proof {
        assert(steps_view(steps@) =~= incr_rejects_case());
    }
    steps
}

/// The waits of the second half leave a whole unit of slack on either side, since
/// a backend of that granularity may cut a TTL short by up to one unit:
///
/// ```text
/// t0         incr, ttl = 3u   (gone between t0 + 2u and t0 + 3u at the earliest)
/// t0 + 1.5u  incr, ttl = 3u   (before the first arm can lapse)
/// t0 + 3.2u  get, present     (past the first arm, before the second one's 3.5u)
/// ```
fn incr_ttl_slides_and_purges(timing: KvContractTiming) -> (r: Vec<KvStep>)
    requires
        timing.usable(),
    ensures
        steps_view(r@) == incr_ttl_case(timing.short_ttl@, timing.expiry_slack@),
{
    let unit = timing.short_ttl;
    let live_ttl = unit.times(3);
    let steps = vec![
        step_open(),
        // A counter left idle is purged; the next incr restarts at 0.
        step_incr(
            "idle",
            7,
            Some(unit),
            Expected::Counts { value: 7, otherwise: "incr on a missing key must start from 0" },
        ),
        step_pause(unit.plus(timing.expiry_slack)),
        step_incr(
            "idle",
            2,
            Some(unit),
            Expected::Counts { value: 2, otherwise: "an expired counter must restart from 0" },
        ),
        // Each incr arms the TTL anew.
        step_incr(
            "live",
            1,
            Some(live_ttl),
            Expected::Counts { value: 1, otherwise: "incr on a missing key must start from 0" },
        ),
        step_pause(unit.plus(unit.divided_by(2))),
        step_incr(
            "live",
            1,
            Some(live_ttl),
            Expected::Counts {
                value: 2,
                otherwise: "refresh before expiry must see the accumulated count",
            },
        ),
        step_pause(unit.plus(unit.divided_by(2)).plus(unit.divided_by(5))),
        step_get(
            "live",
            Expected::Present {
                otherwise: "a refreshed counter must outlive the first call's TTL arm",
            },
        ),
        // Left idle, the refreshed arm purges it too.
        step_pause(live_ttl.plus(timing.expiry_slack)),
        step_get(
            "live",
            Expected::Missing { otherwise: "an idle counter must purge after its sliding TTL" },
        ),
    ];
    proof {
        assert(steps_view(steps@) =~= incr_ttl_case(timing.short_ttl@, timing.expiry_slack@));
    }
    steps
}

/// All cases of the battery, in order.
pub open spec fn battery(short: nat, slack: nat) -> Seq<KvStepView> {
    get_missing_case() + put_get_case() + delete_case() + list_prefix_case() + expire_case()
        + ttl_case(short, slack) + overwrite_case(short, slack) + single_winner_case()
        + incr_missing_case() + incr_accumulates_case() + incr_burst_case() + incr_rejects_case()
        + incr_ttl_case(short, slack)
}

/// Adds the steps of a case to a script.
fn add_case(script: &mut Vec<KvStep>, case: Vec<KvStep>)
    ensures
        steps_view(final(script)@) == steps_view(old(script)@) + steps_view(case@),
{
    let ghost added = case@;
    let mut case = case;
    script.append(&mut case);
    proof {
        assert(script@ =~= old(script)@ + added);
        assert(steps_view(script@) =~= steps_view(old(script)@) + steps_view(added));
    }
}

/// The script of the whole battery.
pub(crate) fn battery_steps(timing: KvContractTiming) -> (r: Vec<KvStep>)
    requires
        timing.usable(),
    ensures
        steps_view(r@) == battery(timing.short_ttl@, timing.expiry_slack@),
{
    let mut script = get_missing_returns_none();
    add_case(&mut script, put_then_get_roundtrips());
    add_case(&mut script, delete_idempotent());
    add_case(&mut script, list_prefix_filters_correctly());
    add_case(&mut script, expire_updates_ttl());
    add_case(&mut script, ttl_purges_keys(timing));
    add_case(&mut script, overwrite_replaces_value_and_ttl(timing));
    add_case(&mut script, put_if_absent_is_single_winner());
    add_case(&mut script, incr_missing_key_starts_at_zero());
    add_case(&mut script, incr_accumulates_and_roundtrips_via_get());
    add_case(&mut script, incr_no_lost_updates_under_interleaved_callers());
    add_case(&mut script, incr_rejects_non_integer_values());
    add_case(&mut script, incr_ttl_slides_and_purges(timing));
    script
}

/// The contents of a list of steps are those of each step, in order.
pub proof fn law_script_is_its_steps(steps: Seq<KvStep>, i: int)
    requires
        0 <= i < steps.len(),
    ensures
        steps_view(steps).len() == steps.len(),
        steps_view(steps)[i].action == steps[i].action@,
        steps_view(steps)[i].expected == steps[i].expected@,
{
}

} // verus!
