//! The steps of a contract case: what to ask of the store, and what the answer
//! must be.

use bytes::Bytes;
use std::collections::BTreeSet;
use vstd::prelude::*;
use vstd::string::*;

use crate::error::ClusterError;
use crate::key_value::{
    claimed, counted, deleted, expired, fetched, listed, listing_view, stored, Entry, EntryView,
};
use crate::kv_model::{KvAnswer, KvOp};
use crate::payload::{as_slice, contents, same_bytes};
use crate::time::{span_of, Duration};

verus! {

/// What the driver is to do next.
#[derive(Debug)]
pub enum KvAction {
    /// Make a fresh, isolated store. The steps that follow address it.
    Open,
    /// Wait, for at least this long.
    Pause { span: Duration },
    Get { key: &'static str },
    Put { key: &'static str, value: Bytes, ttl: Option<Duration> },
    PutIfAbsent { key: &'static str, value: Bytes, ttl: Option<Duration> },
    Delete { key: &'static str },
    ListPrefix { prefix: &'static str, limit: usize },
    Expire { key: &'static str, ttl: Option<Duration> },
    Incr { key: &'static str, delta: i64, ttl: Option<Duration> },
    /// Start `callers` increments at once, and hand back their answers as they come.
    IncrBurst { key: &'static str, delta: i64, ttl: Option<Duration>, callers: usize },
}

/// What a [`KvAction`] asks for.
pub ghost enum KvActionView {
    Open,
    Pause(nat),
    Call(KvOp),
    Burst(KvOp, nat),
}

impl View for KvAction {
    type V = KvActionView;

    open spec fn view(&self) -> KvActionView {
        match *self {
            KvAction::Open => KvActionView::Open,
            KvAction::Pause { span } => KvActionView::Pause(span@),
            KvAction::Get { key } => KvActionView::Call(KvOp::Get { key: key@ }),
            KvAction::Put { key, value, ttl } => KvActionView::Call(
                KvOp::Put { key: key@, bytes: contents(value), ttl: span_of(ttl) },
            ),
            KvAction::PutIfAbsent { key, value, ttl } => KvActionView::Call(
                KvOp::PutIfAbsent { key: key@, bytes: contents(value), ttl: span_of(ttl) },
            ),
            KvAction::Delete { key } => KvActionView::Call(KvOp::Delete { key: key@ }),
            KvAction::ListPrefix { prefix, limit } => KvActionView::Call(
                KvOp::ListPrefix { prefix: prefix@, limit: limit as nat },
            ),
            KvAction::Expire { key, ttl } => KvActionView::Call(
                KvOp::Expire { key: key@, ttl: span_of(ttl) },
            ),
            KvAction::Incr { key, delta, ttl } => KvActionView::Call(
                KvOp::Incr { key: key@, delta: delta as int, ttl: span_of(ttl) },
            ),
            KvAction::IncrBurst { key, delta, ttl, callers } => KvActionView::Burst(
                KvOp::Incr { key: key@, delta: delta as int, ttl: span_of(ttl) },
                callers as nat,
            ),
        }
    }
}

/// What came of a [`KvAction`].
#[derive(Debug)]
pub enum KvReply {
    /// The store is open, or the pause is over.
    Ready,
    Fetched(Result<Option<Entry>, ClusterError>),
    Stored(Result<(), ClusterError>),
    Claimed(Result<bool, ClusterError>),
    Deleted(Result<bool, ClusterError>),
    Listed(Result<Vec<(String, Entry)>, ClusterError>),
    Expired(Result<bool, ClusterError>),
    Counted(Result<i64, ClusterError>),
    /// Answers of a burst, in the order in which they came.
    Burst(Vec<Result<i64, ClusterError>>),
}

/// What a [`KvReply`] says.
pub ghost enum KvReplyView {
    Ready,
    Answer(KvAnswer),
    Burst(Seq<KvAnswer>),
}

/// The answers that the results of a burst stand for.
pub open spec fn burst_view(results: Seq<Result<i64, ClusterError>>) -> Seq<KvAnswer> {
    results.map_values(|r: Result<i64, ClusterError>| counted(r))
}

impl View for KvReply {
    type V = KvReplyView;

    open spec fn view(&self) -> KvReplyView {
        match *self {
            KvReply::Ready => KvReplyView::Ready,
            KvReply::Fetched(r) => KvReplyView::Answer(fetched(r)),
            KvReply::Stored(r) => KvReplyView::Answer(stored(r)),
            KvReply::Claimed(r) => KvReplyView::Answer(claimed(r)),
            KvReply::Deleted(r) => KvReplyView::Answer(deleted(r)),
            KvReply::Listed(r) => KvReplyView::Answer(listed(r)),
            KvReply::Expired(r) => KvReplyView::Answer(expired(r)),
            KvReply::Counted(r) => KvReplyView::Answer(counted(r)),
            KvReply::Burst(rs) => KvReplyView::Burst(burst_view(rs@)),
        }
    }
}

/// What the reply to a step must be. Each text is what is said of a store whose
/// reply is not that.
#[derive(Debug)]
pub enum Expected {
    /// Nothing is asked of the store.
    Ready,
    /// The write is accepted.
    Accepted,
    /// There is no entry.
    Missing { otherwise: &'static str },
    /// There is an entry.
    Present { otherwise: &'static str },
    /// There is an entry, and these are its bytes.
    Holds { bytes: &'static str, missing: &'static str, otherwise: &'static str },
    /// The claim, deletion or expiry reports this.
    Reports { outcome: bool, otherwise: &'static str },
    /// The listing has this many entries, all of `listed` among them and none of
    /// `unlisted`.
    Lists {
        count: usize,
        listed: Vec<&'static str>,
        unlisted: Vec<&'static str>,
        otherwise: &'static str,
    },
    /// The counter is now at this value.
    Counts { value: i64, otherwise: &'static str },
    /// The store refuses.
    Refuses { otherwise: &'static str },
    /// Every increment of the burst saw a value of its own.
    AllDistinct { otherwise: &'static str },
}

/// What an [`Expected`] demands.
pub ghost enum ExpectedView {
    Ready,
    Accepted,
    Missing { otherwise: Seq<char> },
    Present { otherwise: Seq<char> },
    Holds { bytes: Seq<u8>, missing: Seq<char>, otherwise: Seq<char> },
    Reports { outcome: bool, otherwise: Seq<char> },
    Lists {
        count: nat,
        listed: Seq<Seq<char>>,
        unlisted: Seq<Seq<char>>,
        otherwise: Seq<char>,
    },
    Counts { value: int, otherwise: Seq<char> },
    Refuses { otherwise: Seq<char> },
    AllDistinct { otherwise: Seq<char> },
}

/// The texts of a list.
pub open spec fn texts(list: Seq<&'static str>) -> Seq<Seq<char>> {
    list.map_values(|s: &'static str| s@)
}

/// The bytes of a text.
pub open spec fn text_bytes(text: Seq<char>) -> Seq<u8> {
    vstd::utf8::encode_utf8(text)
}

impl View for Expected {
    type V = ExpectedView;

    open spec fn view(&self) -> ExpectedView {
        match *self {
            Expected::Ready => ExpectedView::Ready,
            Expected::Accepted => ExpectedView::Accepted,
            Expected::Missing { otherwise } => ExpectedView::Missing { otherwise: otherwise@ },
            Expected::Present { otherwise } => ExpectedView::Present { otherwise: otherwise@ },
            Expected::Holds { bytes, missing, otherwise } => ExpectedView::Holds {
                bytes: text_bytes(bytes@),
                missing: missing@,
                otherwise: otherwise@,
            },
            Expected::Reports { outcome, otherwise } => ExpectedView::Reports {
                outcome,
                otherwise: otherwise@,
            },
            Expected::Lists { count, listed, unlisted, otherwise } => ExpectedView::Lists {
                count: count as nat,
                listed: texts(listed@),
                unlisted: texts(unlisted@),
                otherwise: otherwise@,
            },
            Expected::Counts { value, otherwise } => ExpectedView::Counts {
                value: value as int,
                otherwise: otherwise@,
            },
            Expected::Refuses { otherwise } => ExpectedView::Refuses { otherwise: otherwise@ },
            Expected::AllDistinct { otherwise } => ExpectedView::AllDistinct {
                otherwise: otherwise@,
            },
        }
    }
}

/// How a store broke the contract.
#[derive(Debug)]
pub enum Violation {
    /// An operation that has to succeed failed.
    Failed { error: ClusterError },
    /// The answer is not the one that the contract demands.
    Broken { rule: &'static str },
    /// Two increments saw the same value.
    Repeated { rule: &'static str, value: i64 },
    /// The reply is to another kind of action than the one that was asked for.
    Misplaced,
}

/// What a [`Violation`] says.
pub ghost enum ViolationView {
    Failed { error: ClusterError },
    Broken { rule: Seq<char> },
    Repeated { rule: Seq<char>, value: int },
    Misplaced,
}

impl View for Violation {
    type V = ViolationView;

    open spec fn view(&self) -> ViolationView {
        match *self {
            Violation::Failed { error } => ViolationView::Failed { error },
            Violation::Broken { rule } => ViolationView::Broken { rule: rule@ },
            Violation::Repeated { rule, value } => ViolationView::Repeated {
                rule: rule@,
                value: value as int,
            },
            Violation::Misplaced => ViolationView::Misplaced,
        }
    }
}

/// The keys of a listing.
pub open spec fn listed_keys(listing: Seq<(Seq<char>, EntryView)>) -> Seq<Seq<char>> {
    listing.map_values(|pair: (Seq<char>, EntryView)| pair.0)
}

/// Whether a listing has `count` entries, all of `listed` among them and none of
/// `unlisted`.
pub open spec fn lists_as_told(
    listing: Seq<(Seq<char>, EntryView)>,
    count: nat,
    listed: Seq<Seq<char>>,
    unlisted: Seq<Seq<char>>,
) -> bool {
    &&& listing.len() == count
    &&& forall|i: int|
        0 <= i < listed.len() ==> listed_keys(listing).contains(#[trigger] listed[i])
    &&& forall|i: int|
        0 <= i < unlisted.len() ==> !listed_keys(listing).contains(#[trigger] unlisted[i])
}

/// Whether an answer failed, or repeats one of those before it.
pub open spec fn clashes(answers: Seq<KvAnswer>, i: int) -> bool {
    ||| !(answers[i] is Counted)
    ||| exists|j: int| 0 <= j < i && #[trigger] answers[j] == answers[i]
}

/// The first answer, from `from` on, that repeats an earlier one or failed.
pub open spec fn first_clash(answers: Seq<KvAnswer>, from: int) -> Option<int>
    decreases answers.len() - from,
{
    if from >= answers.len() {
        None
    } else if clashes(answers, from) {
        Some(from)
    } else {
        first_clash(answers, from + 1)
    }
}

/// What `reply` breaks of `expected`; `None` where it is as demanded.
pub open spec fn violation(expected: ExpectedView, reply: KvReplyView) -> Option<ViolationView> {
    match (expected, reply) {
        (ExpectedView::Ready, KvReplyView::Ready) => None,
        (ExpectedView::AllDistinct { otherwise }, KvReplyView::Burst(answers)) => match first_clash(
            answers,
            0,
        ) {
            None => None,
            Some(i) => match answers[i] {
                KvAnswer::Failed(error) => Some(ViolationView::Failed { error }),
                KvAnswer::Counted(value) => Some(
                    ViolationView::Repeated { rule: otherwise, value },
                ),
                _ => Some(ViolationView::Misplaced),
            },
        },
        (ExpectedView::Refuses { otherwise }, KvReplyView::Answer(answer)) => match answer {
            KvAnswer::Failed(_) => None,
            KvAnswer::Counted(_) => Some(ViolationView::Broken { rule: otherwise }),
            _ => Some(ViolationView::Misplaced),
        },
        (_, KvReplyView::Answer(KvAnswer::Failed(error))) => Some(ViolationView::Failed { error }),
        (ExpectedView::Accepted, KvReplyView::Answer(KvAnswer::Stored)) => None,
        (ExpectedView::Missing { otherwise }, KvReplyView::Answer(KvAnswer::Fetched(found))) =>
            broken_unless(found is None, otherwise),
        (ExpectedView::Present { otherwise }, KvReplyView::Answer(KvAnswer::Fetched(found))) =>
            broken_unless(found is Some, otherwise),
        (
            ExpectedView::Holds { bytes, missing, otherwise },
            KvReplyView::Answer(KvAnswer::Fetched(found)),
        ) => match found {
            None => Some(ViolationView::Broken { rule: missing }),
            Some(entry) => broken_unless(entry.bytes == bytes, otherwise),
        },
        (
            ExpectedView::Reports { outcome, otherwise },
            KvReplyView::Answer(KvAnswer::Claimed(b)),
        ) => broken_unless(b == outcome, otherwise),
        (
            ExpectedView::Reports { outcome, otherwise },
            KvReplyView::Answer(KvAnswer::Deleted(b)),
        ) => broken_unless(b == outcome, otherwise),
        (
            ExpectedView::Reports { outcome, otherwise },
            KvReplyView::Answer(KvAnswer::Expired(b)),
        ) => broken_unless(b == outcome, otherwise),
        (
            ExpectedView::Lists { count, listed, unlisted, otherwise },
            KvReplyView::Answer(KvAnswer::Listed(listing)),
        ) => broken_unless(lists_as_told(listing, count, listed, unlisted), otherwise),
        (
            ExpectedView::Counts { value, otherwise },
            KvReplyView::Answer(KvAnswer::Counted(n)),
        ) => broken_unless(n == value, otherwise),
        _ => Some(ViolationView::Misplaced),
    }
}

/// The breach of `rule`, unless it was `kept`.
pub open spec fn broken_unless(kept: bool, rule: Seq<char>) -> Option<ViolationView> {
    if kept {
        None
    } else {
        Some(ViolationView::Broken { rule })
    }
}

/// Whether `answer` is of the kind that `op` calls for. Any operation may fail.
pub open spec fn answers_op(op: KvOp, answer: KvAnswer) -> bool {
    ||| answer is Failed
    ||| match op {
        KvOp::Get { .. } => answer is Fetched,
        KvOp::Put { .. } => answer is Stored,
        KvOp::PutIfAbsent { .. } => answer is Claimed,
        KvOp::Delete { .. } => answer is Deleted,
        KvOp::ListPrefix { .. } => answer is Listed,
        KvOp::Expire { .. } => answer is Expired,
        KvOp::Incr { .. } => answer is Counted,
    }
}

/// Whether `reply` is of the kind that `action` calls for.
pub open spec fn fits(action: KvActionView, reply: KvReplyView) -> bool {
    match action {
        KvActionView::Open => reply is Ready,
        KvActionView::Pause(_) => reply is Ready,
        KvActionView::Call(op) => reply matches KvReplyView::Answer(answer) && answers_op(
            op,
            answer,
        ),
        KvActionView::Burst(_, callers) => reply matches KvReplyView::Burst(answers)
            && answers.len() == callers,
    }
}

/// One step of a case.
#[derive(Debug)]
pub struct KvStep {
    pub action: KvAction,
    pub expected: Expected,
}

/// What a [`KvStep`] asks for and demands.
pub ghost struct KvStepView {
    pub action: KvActionView,
    pub expected: ExpectedView,
}

impl View for KvStep {
    type V = KvStepView;

    open spec fn view(&self) -> KvStepView {
        KvStepView { action: self.action@, expected: self.expected@ }
    }
}

/// What `reply` to `step` breaks of the contract; `None` where it keeps it.
pub open spec fn breach(step: KvStepView, reply: KvReplyView) -> Option<ViolationView> {
    if fits(step.action, reply) {
        violation(step.expected, reply)
    } else {
        Some(ViolationView::Misplaced)
    }
}

/// The view of an optional violation.
pub open spec fn violation_view(v: Option<Violation>) -> Option<ViolationView> {
    match v {
        Some(v) => Some(v@),
        None => None,
    }
}

impl KvAction {
    /// Whether the reply is of the kind that the action calls for.
    fn fits(&self, reply: &KvReply) -> (r: bool)
        ensures
            r == fits(self@, reply@),
    {
        match (self, reply) {
            (KvAction::Open, KvReply::Ready) => true,
            (KvAction::Pause { .. }, KvReply::Ready) => true,
            (KvAction::Open, _) => false,
            (KvAction::Pause { .. }, _) => false,
            (KvAction::IncrBurst { callers, .. }, KvReply::Burst(answers)) => answers.len()
                == *callers,
            (KvAction::IncrBurst { .. }, _) => false,
            (_, KvReply::Ready) => false,
            (_, KvReply::Burst(_)) => false,
            (_, KvReply::Fetched(Err(_))) => true,
            (_, KvReply::Stored(Err(_))) => true,
            (_, KvReply::Claimed(Err(_))) => true,
            (_, KvReply::Deleted(Err(_))) => true,
            (_, KvReply::Listed(Err(_))) => true,
            (_, KvReply::Expired(Err(_))) => true,
            (_, KvReply::Counted(Err(_))) => true,
            (KvAction::Get { .. }, KvReply::Fetched(Ok(_))) => true,
            (KvAction::Put { .. }, KvReply::Stored(Ok(_))) => true,
            (KvAction::PutIfAbsent { .. }, KvReply::Claimed(Ok(_))) => true,
            (KvAction::Delete { .. }, KvReply::Deleted(Ok(_))) => true,
            (KvAction::ListPrefix { .. }, KvReply::Listed(Ok(_))) => true,
            (KvAction::Expire { .. }, KvReply::Expired(Ok(_))) => true,
            (KvAction::Incr { .. }, KvReply::Counted(Ok(_))) => true,
            _ => false,
        }
    }
}

/// The breach of `rule`, unless it was `kept`.
fn check_rule(kept: bool, rule: &'static str) -> (r: Option<Violation>)
    ensures
        violation_view(r) == broken_unless(kept, rule@),
{
    if kept {
        None
    } else {
        Some(Violation::Broken { rule })
    }
}

/// Whether the entry holds the bytes of `text`.
fn holds_text(entry: &Entry, text: &'static str) -> (r: bool)
    ensures
        r == (entry@.bytes == text_bytes(text@)),
{
    same_bytes(as_slice(&entry.bytes), text.as_bytes())
}

/// Whether `key` is among the keys of the listing.
fn lists_key(listing: &Vec<(String, Entry)>, key: &'static str) -> (r: bool)
    ensures
        r == listed_keys(listing_view(listing@)).contains(key@),
{
    let ghost keys = listed_keys(listing_view(listing@));
    let wanted: String = key.to_owned();
    let mut i: usize = 0;
    while i < listing.len()
        invariant
            i <= listing.len(),
            keys == listed_keys(listing_view(listing@)),
            wanted@ == key@,
            forall|j: int| 0 <= j < i ==> #[trigger] keys[j] != key@,
        decreases listing.len() - i,
    {
        proof {
            assert(keys[i as int] == listing@[i as int].0@);
        }
        if listing[i].0 == wanted {
            return true;
        }
        i += 1;
    }
    false
}

/// Whether every one of `wanted` is in the listing, or where `present` is not
/// set, none is.
fn lists_all(listing: &Vec<(String, Entry)>, wanted: &Vec<&'static str>, present: bool) -> (r: bool)
    ensures
        r == forall|i: int|
            0 <= i < wanted.len() ==> listed_keys(listing_view(listing@)).contains(
                #[trigger] texts(wanted@)[i],
            ) == present,
{
    let ghost keys = listed_keys(listing_view(listing@));
    let mut i: usize = 0;
    while i < wanted.len()
        invariant
            i <= wanted.len(),
            keys == listed_keys(listing_view(listing@)),
            forall|j: int| 0 <= j < i ==> keys.contains(#[trigger] texts(wanted@)[j]) == present,
        decreases wanted.len() - i,
    {
        proof {
            assert(texts(wanted@)[i as int] == wanted@[i as int]@);
        }
        if lists_key(listing, wanted[i]) != present {
            return false;
        }
        i += 1;
    }
    true
}

/// Adds a value to those seen, and tells whether it is new.
fn remember(seen: &mut BTreeSet<i64>, value: i64) -> (r: bool)
    ensures
        final(seen)@ == old(seen)@.insert(value),
        r == !old(seen)@.contains(value),
{
    broadcast use vstd::laws_cmp::group_laws_cmp;

    seen.insert(value)
}

/// Finds the first increment of a burst that failed or saw a value which an
/// earlier one had seen.
fn find_clash(results: &Vec<Result<i64, ClusterError>>) -> (r: Option<usize>)
    ensures
        match first_clash(burst_view(results@), 0) {
            Some(i) => r matches Some(n) && n == i && n < results.len(),
            None => r is None,
        },
{
    let ghost answers = burst_view(results@);
    let mut seen: BTreeSet<i64> = BTreeSet::new();
    let mut i: usize = 0;
    while i < results.len()
        invariant
            i <= results.len(),
            answers == burst_view(results@),
            first_clash(answers, 0) == first_clash(answers, i as int),
            forall|v: i64|
                #![trigger seen@.contains(v)]
                seen@.contains(v) <==> exists|j: int|
                    0 <= j < i && #[trigger] answers[j] == KvAnswer::Counted(v as int),
        decreases results.len() - i,
    {
        let ghost before = seen@;
        proof {
            assert(answers[i as int] == counted(results@[i as int]));
        }
        match &results[i] {
            Err(_) => {
                return Some(i);
            },
            Ok(v) => {
                if !remember(&mut seen, *v) {
                    proof {
                        assert(before.contains(*v));
                    }
                    return Some(i);
                }
                proof {
                    assert(!before.contains(*v));
                    assert forall|w: i64| #[trigger] seen@.contains(w) implies exists|j: int|
                        0 <= j < i + 1 && #[trigger] answers[j] == KvAnswer::Counted(w as int) by {
                        if w == *v {
                            assert(answers[i as int] == KvAnswer::Counted(w as int));
                        } else {
                            assert(before.contains(w));
                        }
                    }
                    assert forall|w: i64|
                        (exists|j: int|
                            0 <= j < i + 1 && #[trigger] answers[j] == KvAnswer::Counted(
                                w as int,
                            )) implies #[trigger] seen@.contains(w) by {
                        if w != *v {
                            assert(before.contains(w));
                        }
                    }
                }
            },
        }
        i += 1;
    }
    None
}

/// What the answers of a burst break of the demand that no two are the same. Where
/// they keep it, they are left as they are.
fn check_distinct(results: &mut Vec<Result<i64, ClusterError>>, rule: &'static str) -> (r: Option<
    Violation,
>)
    ensures
        violation_view(r) == violation(
            ExpectedView::AllDistinct { otherwise: rule@ },
            KvReplyView::Burst(burst_view(old(results)@)),
        ),
        r is None ==> final(results)@ == old(results)@,
{
    let ghost answers = burst_view(results@);
    match find_clash(results) {
        None => None,
        Some(i) => {
            proof {
                assert(answers[i as int] == counted(results@[i as int]));
            }
            match results.swap_remove(i) {
                Err(error) => Some(Violation::Failed { error }),
                Ok(value) => Some(Violation::Repeated { rule, value }),
            }
        },
    }
}

impl Expected {
    /// What the reply breaks of the demand, if anything.
    fn check(&self, reply: KvReply) -> (r: Option<Violation>)
        ensures
            violation_view(r) == violation(self@, reply@),
    {
        match (self, reply) {
            (Expected::Ready, KvReply::Ready) => None,
            (Expected::AllDistinct { otherwise }, KvReply::Burst(results)) => {
                let mut rest = results;
                check_distinct(&mut rest, *otherwise)
            },
            (Expected::Refuses { .. }, KvReply::Fetched(Err(_))) => None,
            (Expected::Refuses { .. }, KvReply::Stored(Err(_))) => None,
            (Expected::Refuses { .. }, KvReply::Claimed(Err(_))) => None,
            (Expected::Refuses { .. }, KvReply::Deleted(Err(_))) => None,
            (Expected::Refuses { .. }, KvReply::Listed(Err(_))) => None,
            (Expected::Refuses { .. }, KvReply::Expired(Err(_))) => None,
            (Expected::Refuses { .. }, KvReply::Counted(Err(_))) => None,
            (Expected::Refuses { otherwise }, KvReply::Counted(Ok(_))) => {
                Some(Violation::Broken { rule: *otherwise })
            },
            (_, KvReply::Fetched(Err(error))) => Some(Violation::Failed { error }),
            (_, KvReply::Stored(Err(error))) => Some(Violation::Failed { error }),
            (_, KvReply::Claimed(Err(error))) => Some(Violation::Failed { error }),
            (_, KvReply::Deleted(Err(error))) => Some(Violation::Failed { error }),
            (_, KvReply::Listed(Err(error))) => Some(Violation::Failed { error }),
            (_, KvReply::Expired(Err(error))) => Some(Violation::Failed { error }),
            (_, KvReply::Counted(Err(error))) => Some(Violation::Failed { error }),
            (Expected::Accepted, KvReply::Stored(Ok(_))) => None,
            (Expected::Missing { otherwise }, KvReply::Fetched(Ok(found))) => {
                check_rule(found.is_none(), *otherwise)
            },
            (Expected::Present { otherwise }, KvReply::Fetched(Ok(found))) => {
                check_rule(found.is_some(), *otherwise)
            },
            (
                Expected::Holds { bytes, missing, otherwise },
                KvReply::Fetched(Ok(found)),
            ) => match found {
                None => Some(Violation::Broken { rule: *missing }),
                Some(entry) => check_rule(holds_text(&entry, *bytes), *otherwise),
            },
            (Expected::Reports { outcome, otherwise }, KvReply::Claimed(Ok(b))) => {
                check_rule(b == *outcome, *otherwise)
            },
            (Expected::Reports { outcome, otherwise }, KvReply::Deleted(Ok(b))) => {
                check_rule(b == *outcome, *otherwise)
            },
            (Expected::Reports { outcome, otherwise }, KvReply::Expired(Ok(b))) => {
                check_rule(b == *outcome, *otherwise)
            },
            (
                Expected::Lists { count, listed, unlisted, otherwise },
                KvReply::Listed(Ok(listing)),
            ) => {
                let kept = listing.len() == *count && lists_all(&listing, listed, true)
                    && lists_all(&listing, unlisted, false);
                proof {
                    assert(kept == lists_as_told(
                        listing_view(listing@),
                        *count as nat,
                        texts(listed@),
                        texts(unlisted@),
                    ));
                }
                check_rule(kept, *otherwise)
            },
            (Expected::Counts { value, otherwise }, KvReply::Counted(Ok(n))) => {
                check_rule(n == *value, *otherwise)
            },
            _ => Some(Violation::Misplaced),
        }
    }
}

impl Expected {
    /// What the answers of a burst break of the demand, as far as they have come.
    /// Where they keep it, they are left as they are.
    pub(crate) fn check_burst(&self, results: &mut Vec<Result<i64, ClusterError>>) -> (r: Option<
        Violation,
    >)
        ensures
            violation_view(r) == violation(
                self@,
                KvReplyView::Burst(burst_view(old(results)@)),
            ),
            r is None ==> final(results)@ == old(results)@,
    {
        match self {
            Expected::AllDistinct { otherwise } => check_distinct(results, *otherwise),
            _ => Some(Violation::Misplaced),
        }
    }
}

impl KvStep {
    /// What the reply to this step breaks of the contract, if anything.
    pub fn check(&self, reply: KvReply) -> (r: Option<Violation>)
        ensures
            violation_view(r) == breach(self@, reply@),
    {
        if self.action.fits(&reply) {
            self.expected.check(reply)
        } else {
            Some(Violation::Misplaced)
        }
    }
}

/// A step that demands an outcome of a claim, a deletion or an expiry is kept exactly
/// by that outcome, and where it is not, its own text is given.
pub proof fn law_reported_outcome_is_the_demanded_one(
    op: KvOp,
    outcome: bool,
    reported: bool,
    otherwise: Seq<char>,
)
    ensures
        ({
            let step = KvStepView {
                action: KvActionView::Call(op),
                expected: ExpectedView::Reports { outcome, otherwise },
            };
            let verdict = if reported == outcome {
                None
            } else {
                Some(ViolationView::Broken { rule: otherwise })
            };
            &&& op is PutIfAbsent ==> breach(
                step,
                KvReplyView::Answer(KvAnswer::Claimed(reported)),
            ) == verdict
            &&& op is Delete ==> breach(
                step,
                KvReplyView::Answer(KvAnswer::Deleted(reported)),
            ) == verdict
            &&& op is Expire ==> breach(
                step,
                KvReplyView::Answer(KvAnswer::Expired(reported)),
            ) == verdict
        }),
{
}

/// A read that has to find nothing is kept exactly by nothing, one that has to find an
/// entry exactly by an entry, and one that has to find certain bytes exactly by an
/// entry with those bytes. Each text is given where it belongs.
pub proof fn law_read_is_as_demanded(
    key: Seq<char>,
    found: Option<EntryView>,
    bytes: Seq<u8>,
    missing: Seq<char>,
    otherwise: Seq<char>,
)
    ensures
        ({
            let action = KvActionView::Call(KvOp::Get { key });
            let reply = KvReplyView::Answer(KvAnswer::Fetched(found));
            let broken = Some(ViolationView::Broken { rule: otherwise });
            &&& breach(
                KvStepView { action, expected: ExpectedView::Missing { otherwise } },
                reply,
            ) == if found is None {
                None
            } else {
                broken
            }
            &&& breach(
                KvStepView { action, expected: ExpectedView::Present { otherwise } },
                reply,
            ) == if found is Some {
                None
            } else {
                broken
            }
            &&& breach(
                KvStepView { action, expected: ExpectedView::Holds { bytes, missing, otherwise } },
                reply,
            ) == match found {
                None => Some(ViolationView::Broken { rule: missing }),
                Some(entry) => if entry.bytes == bytes {
                    None
                } else {
                    broken
                },
            }
        }),
{
}

/// An increment that has to come to a value is kept exactly by that value; one that has
/// to be refused exactly by a failure.
pub proof fn law_count_is_as_demanded(
    op: KvOp,
    count: int,
    value: int,
    error: ClusterError,
    otherwise: Seq<char>,
)
    requires
        op is Incr,
    ensures
        ({
            let action = KvActionView::Call(op);
            let counts = KvStepView { action, expected: ExpectedView::Counts { value, otherwise } };
            let refuses = KvStepView { action, expected: ExpectedView::Refuses { otherwise } };
            let broken = Some(ViolationView::Broken { rule: otherwise });
            &&& breach(counts, KvReplyView::Answer(KvAnswer::Counted(count))) == if count == value {
                None
            } else {
                broken
            }
            &&& breach(refuses, KvReplyView::Answer(KvAnswer::Counted(count))) == broken
            &&& breach(refuses, KvReplyView::Answer(KvAnswer::Failed(error))) is None
        }),
{
}

/// A listing is kept exactly where it has the number of entries demanded, every key that
/// has to be in it, and none that must not be.
pub proof fn law_listing_is_as_demanded(
    op: KvOp,
    listing: Seq<(Seq<char>, EntryView)>,
    count: nat,
    wanted: Seq<Seq<char>>,
    unwanted: Seq<Seq<char>>,
    otherwise: Seq<char>,
)
    requires
        op is ListPrefix,
    ensures
        ({
            let step = KvStepView {
                action: KvActionView::Call(op),
                expected: ExpectedView::Lists {
                    count,
                    listed: wanted,
                    unlisted: unwanted,
                    otherwise,
                },
            };
            let kept = {
                &&& listing.len() == count
                &&& forall|i: int|
                    0 <= i < wanted.len() ==> exists|j: int|
                        0 <= j < listing.len() && (#[trigger] listing[j]).0 == #[trigger] wanted[i]
                &&& forall|i: int, j: int|
                    0 <= i < unwanted.len() && 0 <= j < listing.len() ==> (
                    #[trigger] listing[j]).0 != #[trigger] unwanted[i]
            };
            breach(step, KvReplyView::Answer(KvAnswer::Listed(listing))) == if kept {
                None
            } else {
                Some(ViolationView::Broken { rule: otherwise })
            }
        }),
{
    let keys = listed_keys(listing);
    assert(keys.len() == listing.len());
    assert forall|j: int| 0 <= j < listing.len() implies #[trigger] keys[j] == listing[j].0 by {}
    assert forall|key: Seq<char>| #[trigger] keys.contains(key) implies exists|j: int|
        0 <= j < listing.len() && (#[trigger] listing[j]).0 == key by {
        let j = choose|j: int| 0 <= j < keys.len() && keys[j] == key;
        assert(listing[j].0 == key);
    }
    assert forall|j: int| 0 <= j < listing.len() implies keys.contains(
        (#[trigger] listing[j]).0,
    ) by {
        assert(keys[j] == listing[j].0);
    }
    let all = forall|i: int|
        0 <= i < wanted.len() ==> exists|j: int|
            0 <= j < listing.len() && (#[trigger] listing[j]).0 == #[trigger] wanted[i];
    let none = forall|i: int, j: int|
        0 <= i < unwanted.len() && 0 <= j < listing.len() ==> (#[trigger] listing[j]).0
            != #[trigger] unwanted[i];
    let told_all = forall|i: int| 0 <= i < wanted.len() ==> keys.contains(#[trigger] wanted[i]);
    let told_none = forall|i: int|
        0 <= i < unwanted.len() ==> !keys.contains(#[trigger] unwanted[i]);
    if all {
        assert forall|i: int| 0 <= i < wanted.len() implies keys.contains(#[trigger] wanted[i]) by {
            let j = choose|j: int|
                0 <= j < listing.len() && (#[trigger] listing[j]).0 == wanted[i];
            assert(keys.contains(listing[j].0));
        }
    }
    if told_all {
        assert forall|i: int| 0 <= i < wanted.len() implies exists|j: int|
            0 <= j < listing.len() && (#[trigger] listing[j]).0 == #[trigger] wanted[i] by {
            assert(keys.contains(wanted[i]));
        }
    }
    if none {
        assert forall|i: int| 0 <= i < unwanted.len() implies !keys.contains(
            #[trigger] unwanted[i],
        ) by {
            if keys.contains(unwanted[i]) {
                let j = choose|j: int|
                    0 <= j < listing.len() && (#[trigger] listing[j]).0 == unwanted[i];
                assert(listing[j].0 != unwanted[i]);
            }
        }
    }
    if told_none {
        assert forall|i: int, j: int| 0 <= i < unwanted.len() && 0 <= j < listing.len() implies (
        #[trigger] listing[j]).0 != #[trigger] unwanted[i] by {
            assert(keys.contains(listing[j].0));
        }
    }
    assert(all == told_all);
    assert(none == told_none);
    assert(lists_as_told(listing, count, wanted, unwanted) == (listing.len() == count && all
        && none));
}

/// A write is kept exactly where it is accepted. Any other step but one that demands a
/// refusal is broken by a failure, and the store's own error is given.
pub proof fn law_failure_breaks_step(step: KvStepView, error: ClusterError)
    requires
        step.action is Call,
    ensures
        !(step.expected is Refuses) ==> breach(
            step,
            KvReplyView::Answer(KvAnswer::Failed(error)),
        ) == Some(ViolationView::Failed { error }),
        (step.action->Call_0 is Put && step.expected is Accepted) ==> breach(
            step,
            KvReplyView::Answer(KvAnswer::Stored),
        ) is None,
{
}

/// A reply of another kind than the action calls for breaks every step.
pub proof fn law_reply_of_another_kind_is_misplaced(step: KvStepView, reply: KvReplyView)
    ensures
        ({
            let right = match (step.action, reply) {
                (KvActionView::Open, KvReplyView::Ready) => true,
                (KvActionView::Pause(_), KvReplyView::Ready) => true,
                (KvActionView::Call(_), KvReplyView::Answer(KvAnswer::Failed(_))) => true,
                (
                    KvActionView::Call(op),
                    KvReplyView::Answer(answer),
                ) => match (op, answer) {
                    (KvOp::Get { .. }, KvAnswer::Fetched(_)) => true,
                    (KvOp::Put { .. }, KvAnswer::Stored) => true,
                    (KvOp::PutIfAbsent { .. }, KvAnswer::Claimed(_)) => true,
                    (KvOp::Delete { .. }, KvAnswer::Deleted(_)) => true,
                    (KvOp::ListPrefix { .. }, KvAnswer::Listed(_)) => true,
                    (KvOp::Expire { .. }, KvAnswer::Expired(_)) => true,
                    (KvOp::Incr { .. }, KvAnswer::Counted(_)) => true,
                    _ => false,
                },
                (
                    KvActionView::Burst(_, callers),
                    KvReplyView::Burst(answers),
                ) => answers.len() == callers,
                _ => false,
            };
            &&& !right ==> breach(step, reply) == Some(ViolationView::Misplaced)
            &&& right && reply is Ready && step.expected is Ready ==> breach(step, reply) is None
        }),
{
}

/// Where none clashes from `from` on, every answer from there on is a count unlike all
/// before it; the first that does is the first that is not.
proof fn lemma_first_clash(answers: Seq<KvAnswer>, from: int)
    requires
        0 <= from,
    ensures
        match first_clash(answers, from) {
            None => forall|k: int| from <= k < answers.len() ==> !clashes(answers, k),
            Some(i) => from <= i < answers.len() && clashes(answers, i) && forall|k: int|
                from <= k < i ==> !clashes(answers, k),
        },
    decreases answers.len() - from,
{
    if from < answers.len() && !clashes(answers, from) {
        lemma_first_clash(answers, from + 1);
    }
}

/// The answers of a burst keep their step exactly where each is a count, and no two are
/// the same. Where they do not, the finding is about the first answer that is not: its
/// error where it failed, and its value where an earlier one had seen that.
pub proof fn law_burst_is_as_demanded(
    op: KvOp,
    answers: Seq<KvAnswer>,
    otherwise: Seq<char>,
)
    requires
        forall|k: int|
            0 <= k < answers.len() ==> #[trigger] answers[k] is Counted || answers[k] is Failed,
    ensures
        ({
            let step = KvStepView {
                action: KvActionView::Burst(op, answers.len()),
                expected: ExpectedView::AllDistinct { otherwise },
            };
            let verdict = breach(step, KvReplyView::Burst(answers));
            &&& verdict is None <==> (forall|k: int|
                0 <= k < answers.len() ==> #[trigger] answers[k] is Counted) && (forall|
                k: int,
                l: int,
            |
                0 <= k < l < answers.len() ==> #[trigger] answers[k] != #[trigger] answers[l])
            &&& verdict is Some ==> exists|n: int|
                {
                    &&& 0 <= n < answers.len()
                    &&& forall|k: int| 0 <= k < n ==> #[trigger] answers[k] is Counted
                    &&& forall|k: int, l: int|
                        0 <= k < l < n ==> #[trigger] answers[k] != #[trigger] answers[l]
                    &&& match #[trigger] answers[n] {
                        KvAnswer::Failed(error) => verdict == Some(ViolationView::Failed { error }),
                        KvAnswer::Counted(value) => {
                            &&& verdict == Some(ViolationView::Repeated { rule: otherwise, value })
                            &&& exists|k: int| 0 <= k < n && #[trigger] answers[k] == answers[n]
                        },
                        _ => false,
                    }
                }
        }),
{
    lemma_first_clash(answers, 0);
    match first_clash(answers, 0) {
        None => {
            assert forall|k: int|
                0 <= k < answers.len() implies #[trigger] answers[k] is Counted by {
                assert(!clashes(answers, k));
            }
            assert forall|k: int, l: int| 0 <= k < l < answers.len() implies #[trigger] answers[k]
                != #[trigger] answers[l] by {
                assert(!clashes(answers, l));
            }
        },
        Some(n) => {
            assert forall|k: int| 0 <= k < n implies #[trigger] answers[k] is Counted by {
                assert(!clashes(answers, k));
            }
            assert forall|k: int, l: int| 0 <= k < l < n implies #[trigger] answers[k]
                != #[trigger] answers[l] by {
                assert(!clashes(answers, l));
            }
            assert(clashes(answers, n));
            assert(answers[n] is Counted || answers[n] is Failed);
        },
    }
}

/// An action asks for what it holds.
pub proof fn law_action_asks_for_what_it_holds(action: KvAction)
    ensures
        match (action, action@) {
            (KvAction::Open, KvActionView::Open) => true,
            (KvAction::Pause { span }, KvActionView::Pause(n)) => n == span@,
            (KvAction::Get { key }, KvActionView::Call(KvOp::Get { key: k })) => k == key@,
            (
                KvAction::Put { key, value, ttl },
                KvActionView::Call(KvOp::Put { key: k, bytes, ttl: t }),
            ) => k == key@ && bytes == contents(value) && t == span_of(ttl),
            (
                KvAction::PutIfAbsent { key, value, ttl },
                KvActionView::Call(KvOp::PutIfAbsent { key: k, bytes, ttl: t }),
            ) => k == key@ && bytes == contents(value) && t == span_of(ttl),
            (KvAction::Delete { key }, KvActionView::Call(KvOp::Delete { key: k })) => k == key@,
            (
                KvAction::ListPrefix { prefix, limit },
                KvActionView::Call(KvOp::ListPrefix { prefix: p, limit: n }),
            ) => p == prefix@ && n == limit,
            (
                KvAction::Expire { key, ttl },
                KvActionView::Call(KvOp::Expire { key: k, ttl: t }),
            ) => k == key@ && t == span_of(ttl),
            (
                KvAction::Incr { key, delta, ttl },
                KvActionView::Call(KvOp::Incr { key: k, delta: d, ttl: t }),
            ) => k == key@ && d == delta && t == span_of(ttl),
            (
                KvAction::IncrBurst { key, delta, ttl, callers },
                KvActionView::Burst(KvOp::Incr { key: k, delta: d, ttl: t }, n),
            ) => k == key@ && d == delta && t == span_of(ttl) && n == callers,
            _ => false,
        },
{
}

/// A reply says what it holds, errors included.
pub proof fn law_reply_says_what_it_holds(reply: KvReply)
    ensures
        match (reply, reply@) {
            (KvReply::Ready, KvReplyView::Ready) => true,
            (KvReply::Fetched(Ok(None)), KvReplyView::Answer(KvAnswer::Fetched(None))) => true,
            (
                KvReply::Fetched(Ok(Some(entry))),
                KvReplyView::Answer(KvAnswer::Fetched(Some(found))),
            ) => found == entry@,
            (KvReply::Stored(Ok(_)), KvReplyView::Answer(KvAnswer::Stored)) => true,
            (KvReply::Claimed(Ok(b)), KvReplyView::Answer(KvAnswer::Claimed(c))) => c == b,
            (KvReply::Deleted(Ok(b)), KvReplyView::Answer(KvAnswer::Deleted(c))) => c == b,
            (KvReply::Expired(Ok(b)), KvReplyView::Answer(KvAnswer::Expired(c))) => c == b,
            (KvReply::Counted(Ok(n)), KvReplyView::Answer(KvAnswer::Counted(m))) => m == n,
            (KvReply::Listed(Ok(listing)), KvReplyView::Answer(KvAnswer::Listed(view))) => {
                &&& view.len() == listing.len()
                &&& forall|i: int|
                    0 <= i < listing.len() ==> #[trigger] view[i] == (
                        listing@[i].0@,
                        listing@[i].1@,
                    )
            },
            (KvReply::Fetched(Err(e)), KvReplyView::Answer(KvAnswer::Failed(f))) => f == e,
            (KvReply::Stored(Err(e)), KvReplyView::Answer(KvAnswer::Failed(f))) => f == e,
            (KvReply::Claimed(Err(e)), KvReplyView::Answer(KvAnswer::Failed(f))) => f == e,
            (KvReply::Deleted(Err(e)), KvReplyView::Answer(KvAnswer::Failed(f))) => f == e,
            (KvReply::Expired(Err(e)), KvReplyView::Answer(KvAnswer::Failed(f))) => f == e,
            (KvReply::Counted(Err(e)), KvReplyView::Answer(KvAnswer::Failed(f))) => f == e,
            (KvReply::Listed(Err(e)), KvReplyView::Answer(KvAnswer::Failed(f))) => f == e,
            (KvReply::Burst(results), KvReplyView::Burst(answers)) => {
                &&& answers.len() == results.len()
                &&& forall|i: int|
                    0 <= i < results.len() ==> #[trigger] answers[i] == match results@[i] {
                        Ok(n) => KvAnswer::Counted(n as int),
                        Err(e) => KvAnswer::Failed(e),
                    }
            },
            _ => false,
        },
{
}

/// A violation says what it holds.
pub proof fn law_violation_says_what_it_holds(v: Violation)
    ensures
        match (v, v@) {
            (Violation::Failed { error }, ViolationView::Failed { error: e }) => e == error,
            (Violation::Broken { rule }, ViolationView::Broken { rule: r }) => r == rule@,
            (
                Violation::Repeated { rule, value },
                ViolationView::Repeated { rule: r, value: n },
            ) => r == rule@ && n == value,
            (Violation::Misplaced, ViolationView::Misplaced) => true,
            _ => false,
        },
{
}

/// A demand demands what it holds.
pub proof fn law_demand_is_what_it_holds(expected: Expected)
    ensures
        match (expected, expected@) {
            (Expected::Ready, ExpectedView::Ready) => true,
            (Expected::Accepted, ExpectedView::Accepted) => true,
            (Expected::Missing { otherwise }, ExpectedView::Missing { otherwise: o }) => o
                == otherwise@,
            (Expected::Present { otherwise }, ExpectedView::Present { otherwise: o }) => o
                == otherwise@,
            (
                Expected::Holds { bytes, missing, otherwise },
                ExpectedView::Holds { bytes: b, missing: m, otherwise: o },
            ) => b == vstd::utf8::encode_utf8(bytes@) && m == missing@ && o == otherwise@,
            (
                Expected::Reports { outcome, otherwise },
                ExpectedView::Reports { outcome: b, otherwise: o },
            ) => b == outcome && o == otherwise@,
            (
                Expected::Lists { count, listed, unlisted, otherwise },
                ExpectedView::Lists { count: n, listed: l, unlisted: u, otherwise: o },
            ) => {
                &&& n == count
                &&& l.len() == listed.len()
                &&& forall|i: int| 0 <= i < listed.len() ==> #[trigger] l[i] == listed@[i]@
                &&& u.len() == unlisted.len()
                &&& forall|i: int| 0 <= i < unlisted.len() ==> #[trigger] u[i] == unlisted@[i]@
                &&& o == otherwise@
            },
            (
                Expected::Counts { value, otherwise },
                ExpectedView::Counts { value: n, otherwise: o },
            ) => n == value && o == otherwise@,
            (Expected::Refuses { otherwise }, ExpectedView::Refuses { otherwise: o }) => o
                == otherwise@,
            (Expected::AllDistinct { otherwise }, ExpectedView::AllDistinct { otherwise: o }) => o
                == otherwise@,
            _ => false,
        },
{
}

} // verus!
