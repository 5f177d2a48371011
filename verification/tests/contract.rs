use bytes::Bytes;
use mcpg_cluster_api::test_suite::drive::perform;
use mcpg_cluster_api::test_suite::script::{KvAction, KvReply, Violation};
use mcpg_cluster_api::test_suite::{
    run_kv_contract, run_kv_contract_with, KvContractRun, KvContractTiming,
};
use mcpg_cluster_api::{
    counter_overflow, parse_counter, ClusterError, Duration, Entry, KeyValueStore, Timestamp,
};
use std::cell::{Cell, RefCell};
use std::collections::BTreeMap;
use std::rc::Rc;

/// What a store does wrong.
#[derive(Clone, Copy, PartialEq)]
enum Fault {
    Nothing,
    EveryClaimWins,
    LoserOverwrites,
    DeleteAlwaysReports,
    DeleteKeeps,
    PrefixIgnored,
    ListsTooFew,
    ExpireAlwaysReports,
    TtlIgnored,
    OverwriteKeepsTtl,
    CounterStartsAtOne,
    DeltaIgnored,
    CounterInHex,
    UpdatesLost,
    BlobCounts,
    BlobClobbered,
    TtlNotSliding,
    PutFails,
    GetFails,
    ValueMangled,
    GhostValue,
}

struct Slot {
    value: Bytes,
    expires: Option<u128>,
}

struct MemoryStore {
    clock: Rc<Cell<u128>>,
    fault: Fault,
    slots: BTreeMap<String, Slot>,
    calls: u64,
    /// Whole units to which a TTL is cut.
    granularity: u128,
}

impl MemoryStore {
    fn expiry(&self, ttl: Option<Duration>) -> Option<u128> {
        if self.fault == Fault::TtlIgnored {
            return None;
        }
        let end = self.clock.get() + ttl?.as_nanos();
        Some(end - end % self.granularity)
    }

    fn settle(&mut self) {
        let now = self.clock.get();
        self.slots.retain(|_, slot| slot.expires.map_or(true, |at| now < at));
    }

    fn entry(slot: &Slot) -> Entry {
        Entry {
            bytes: slot.value.clone(),
            expires_at: slot.expires.map(|at| Timestamp { unix_nanos: at as i128 }),
        }
    }
}

impl KeyValueStore for MemoryStore {
    fn get(&mut self, key: &str) -> Result<Option<Entry>, ClusterError> {
        if self.fault == Fault::GetFails {
            return Err(ClusterError::Timeout);
        }
        self.settle();
        if self.fault == Fault::GhostValue {
            return Ok(Some(Entry { bytes: Bytes::from_static(b"boo"), expires_at: None }));
        }
        Ok(self.slots.get(key).map(|slot| {
            let mut entry = Self::entry(slot);
            if self.fault == Fault::ValueMangled {
                entry.bytes = Bytes::from_static(b"?");
            }
            entry
        }))
    }

    fn put(&mut self, key: &str, value: Bytes, ttl: Option<Duration>) -> Result<(), ClusterError> {
        if self.fault == Fault::PutFails {
            return Err(ClusterError::BackendUnavailable { reason: "EIO".into() });
        }
        self.settle();
        let mut expires = self.expiry(ttl);
        if self.fault == Fault::OverwriteKeepsTtl && ttl.is_none() {
            expires = self.slots.get(key).and_then(|slot| slot.expires);
        }
        self.slots.insert(key.into(), Slot { value, expires });
        Ok(())
    }

    fn put_if_absent(
        &mut self,
        key: &str,
        value: Bytes,
        ttl: Option<Duration>,
    ) -> Result<bool, ClusterError> {
        self.settle();
        let present = self.slots.contains_key(key);
        let expires = self.expiry(ttl);
        if !present || self.fault == Fault::LoserOverwrites {
            self.slots.insert(key.into(), Slot { value, expires });
        }
        Ok(!present || self.fault == Fault::EveryClaimWins)
    }

    fn delete(&mut self, key: &str) -> Result<bool, ClusterError> {
        self.settle();
        if self.fault == Fault::DeleteKeeps {
            self.calls += 1;
            return Ok(self.calls == 1);
        }
        Ok(self.slots.remove(key).is_some() || self.fault == Fault::DeleteAlwaysReports)
    }

    fn list_prefix(
        &mut self,
        prefix: &str,
        limit: usize,
    ) -> Result<Vec<(String, Entry)>, ClusterError> {
        self.settle();
        let limit = if self.fault == Fault::ListsTooFew { 1 } else { limit };
        Ok(self
            .slots
            .iter()
            .filter(|(k, _)| self.fault == Fault::PrefixIgnored || k.starts_with(prefix))
            .take(limit)
            .map(|(k, slot)| (k.clone(), Self::entry(slot)))
            .collect())
    }

    fn expire(&mut self, key: &str, ttl: Option<Duration>) -> Result<bool, ClusterError> {
        self.settle();
        let expires = self.expiry(ttl);
        match self.slots.get_mut(key) {
            Some(slot) => {
                slot.expires = expires;
                Ok(true)
            }
            None => Ok(self.fault == Fault::ExpireAlwaysReports),
        }
    }

    fn incr(&mut self, key: &str, delta: i64, ttl: Option<Duration>) -> Result<i64, ClusterError> {
        self.settle();
        self.calls += 1;
        let first = if self.fault == Fault::CounterStartsAtOne { 1 } else { 0 };
        let mut base = first;
        let mut expires = self.expiry(ttl);
        if let Some(slot) = self.slots.get(key) {
            match parse_counter(key, &slot.value) {
                Ok(n) => base = n,
                Err(_) if self.fault == Fault::BlobCounts => {}
                Err(e) => {
                    if self.fault == Fault::BlobClobbered {
                        self.slots.remove(key);
                    }
                    return Err(e);
                }
            }
            if self.fault == Fault::TtlNotSliding {
                expires = slot.expires;
            }
        }
        let delta = if self.fault == Fault::DeltaIgnored { 1 } else { delta };
        let lost = self.fault == Fault::UpdatesLost && self.calls > 5 && self.calls % 2 == 0;
        let sum = if lost {
            base
        } else {
            base.checked_add(delta).ok_or_else(|| counter_overflow(key))?
        };
        let text = if self.fault == Fault::CounterInHex {
            format!("0{}", sum)
        } else {
            sum.to_string()
        };
        self.slots.insert(key.into(), Slot { value: Bytes::from(text), expires });
        Ok(sum)
    }
}

/// Drives a run on stores with the given fault, with a clock of its own.
fn drive(run: &mut KvContractRun, fault: Fault, granularity: u128) {
    let clock = Rc::new(Cell::new(5_000_000_000_000));
    let open = || MemoryStore {
        clock: clock.clone(),
        fault,
        slots: BTreeMap::new(),
        calls: 0,
        granularity,
    };
    let mut store = open();
    while let Some(action) = run.next_action() {
        let reply = match action {
            KvAction::Open => {
                store = open();
                KvReply::Ready
            }
            KvAction::Pause { span } => {
                clock.set(clock.get() + span.as_nanos());
                KvReply::Ready
            }
            _ => perform(action, &mut store),
        };
        run.observe(reply);
    }
}

fn outcome(fault: Fault) -> KvContractRun {
    let mut run = run_kv_contract();
    drive(&mut run, fault, 1);
    run
}

fn broken_rule(fault: Fault) -> String {
    let run = outcome(fault);
    assert!(!run.passed());
    match run.violation() {
        Some(Violation::Broken { rule }) => rule.to_string(),
        other => panic!("{:?}", other),
    }
}

#[test]
fn a_sound_store_passes() {
    let run = outcome(Fault::Nothing);
    assert!(run.passed());
    assert!(run.violation().is_none());
    assert!(run.next_action().is_none());
}

#[test]
fn a_whole_second_store_passes_with_the_timing_for_seconds() {
    let mut run = run_kv_contract_with(KvContractTiming::seconds_granularity());
    drive(&mut run, Fault::Nothing, 1_000_000_000);
    assert!(run.passed());
}

#[test]
fn a_whole_second_store_breaks_the_default_timing() {
    let mut run = run_kv_contract();
    drive(&mut run, Fault::Nothing, 1_000_000_000);
    assert!(!run.passed());
}

#[test]
fn claims_must_have_a_single_winner() {
    assert_eq!(
        broken_rule(Fault::EveryClaimWins),
        "put_if_absent on a present key must return false"
    );
    assert_eq!(
        broken_rule(Fault::LoserOverwrites),
        "a losing put_if_absent must not overwrite the winner's value"
    );
}

#[test]
fn deletion_must_be_idempotent() {
    assert_eq!(
        broken_rule(Fault::DeleteAlwaysReports),
        "double-delete is idempotent (returns false)"
    );
    assert_eq!(broken_rule(Fault::DeleteKeeps), "deleted key must be gone");
}

#[test]
fn listings_must_respect_the_prefix() {
    assert_eq!(
        broken_rule(Fault::PrefixIgnored),
        "prefix `a:` must yield exactly 2 entries"
    );
    assert_eq!(broken_rule(Fault::ListsTooFew), "prefix `a:` must yield exactly 2 entries");
}

#[test]
fn ttls_must_be_kept() {
    assert_eq!(broken_rule(Fault::TtlIgnored), "key must be purged after TTL elapses");
    assert_eq!(broken_rule(Fault::OverwriteKeepsTtl), "overwrite must clear TTL");
    assert_eq!(broken_rule(Fault::ExpireAlwaysReports), "expire on missing key returns false");
    assert_eq!(
        broken_rule(Fault::TtlNotSliding),
        "a refreshed counter must outlive the first call's TTL arm"
    );
}

#[test]
fn counters_must_count() {
    assert_eq!(
        broken_rule(Fault::CounterStartsAtOne),
        "incr on a missing key must start from 0"
    );
    assert_eq!(broken_rule(Fault::DeltaIgnored), "incr on a missing key must start from 0");
    assert_eq!(
        broken_rule(Fault::CounterInHex),
        "counter must round-trip through get as ASCII base-10"
    );
    assert_eq!(broken_rule(Fault::BlobCounts), "incr on a non-integer value must error");
    assert_eq!(broken_rule(Fault::BlobClobbered), "value survives");
}

#[test]
fn values_must_read_back() {
    assert_eq!(broken_rule(Fault::GhostValue), "get on missing key must return None");
    assert_eq!(broken_rule(Fault::ValueMangled), "a value must read back as written");
}

#[test]
fn lost_updates_are_found() {
    let run = outcome(Fault::UpdatesLost);
    assert!(matches!(
        run.violation(),
        Some(Violation::Repeated {
            rule: "two callers observed the same post-increment value",
            value: 5
        })
    ));
}

#[test]
fn failures_are_violations() {
    let run = outcome(Fault::PutFails);
    assert!(matches!(
        run.violation(),
        Some(Violation::Failed { error: ClusterError::BackendUnavailable { .. } })
    ));
    let run = outcome(Fault::GetFails);
    assert!(matches!(run.violation(), Some(Violation::Failed { error: ClusterError::Timeout })));
}

#[test]
fn a_failed_increment_in_a_burst_is_a_violation() {
    let mut run = run_kv_contract();
    advance_to_burst(&mut run);
    let mut answers: Vec<Result<i64, ClusterError>> = (1..=40).map(Ok).collect();
    answers[7] = Err(ClusterError::Shutdown);
    run.observe(KvReply::Burst(answers));
    assert!(matches!(run.violation(), Some(Violation::Failed { error: ClusterError::Shutdown })));
}

#[test]
fn a_burst_may_answer_in_any_order() {
    let mut run = run_kv_contract();
    advance_to_burst(&mut run);
    run.observe(KvReply::Burst((1..=40).rev().map(Ok).collect()));
    assert!(run.violation().is_none());
    assert!(matches!(run.next_action(), Some(KvAction::Incr { key: "ctr", delta: 0, ttl: None })));
}

#[test]
fn a_burst_must_be_answered_in_full() {
    let mut run = run_kv_contract();
    advance_to_burst(&mut run);
    run.observe(KvReply::Burst((1..=39).map(Ok).collect()));
    assert!(run.violation().is_none());
    assert!(matches!(run.next_action(), Some(KvAction::IncrBurst { .. })));
    run.observe(KvReply::Burst(vec![Ok(40), Ok(41)]));
    assert!(matches!(run.violation(), Some(Violation::Misplaced)));
}

#[test]
fn a_burst_may_be_answered_in_parts() {
    let mut run = run_kv_contract();
    advance_to_burst(&mut run);
    for n in 1..=40 {
        assert!(matches!(run.next_action(), Some(KvAction::IncrBurst { .. })));
        run.observe(KvReply::Burst(vec![Ok(n)]));
    }
    assert!(run.violation().is_none());
    assert!(matches!(run.next_action(), Some(KvAction::Incr { key: "ctr", delta: 0, .. })));
}

#[test]
fn a_burst_ends_with_its_first_failure_or_repetition() {
    let mut run = run_kv_contract();
    advance_to_burst(&mut run);
    run.observe(KvReply::Burst(vec![Ok(1)]));
    run.observe(KvReply::Burst(vec![Err(ClusterError::Timeout)]));
    assert!(run.next_action().is_none());
    assert!(matches!(run.violation(), Some(Violation::Failed { error: ClusterError::Timeout })));

    let mut run = run_kv_contract();
    advance_to_burst(&mut run);
    run.observe(KvReply::Burst(vec![Ok(1), Ok(2)]));
    run.observe(KvReply::Burst(vec![Ok(2)]));
    assert!(run.next_action().is_none());
    assert!(matches!(run.violation(), Some(Violation::Repeated { value: 2, .. })));
}

#[test]
fn a_burst_is_answered_by_nothing_else() {
    let mut run = run_kv_contract();
    advance_to_burst(&mut run);
    run.observe(KvReply::Counted(Ok(1)));
    assert!(matches!(run.violation(), Some(Violation::Misplaced)));
}

/// Drives a run up to its burst of increments.
fn advance_to_burst(run: &mut KvContractRun) {
    let clock = Rc::new(Cell::new(0));
    let open = || MemoryStore {
        clock: clock.clone(),
        fault: Fault::Nothing,
        slots: BTreeMap::new(),
        calls: 0,
        granularity: 1,
    };
    let mut store = open();
    loop {
        let reply = match run.next_action().unwrap() {
            KvAction::IncrBurst { key, delta, ttl, callers } => {
                assert_eq!((*key, *delta, *callers), ("ctr", 1, 40));
                assert!(ttl.is_none());
                return;
            }
            KvAction::Open => {
                store = open();
                KvReply::Ready
            }
            KvAction::Pause { span } => {
                clock.set(clock.get() + span.as_nanos());
                KvReply::Ready
            }
            action => perform(action, &mut store),
        };
        run.observe(reply);
    }
}

#[test]
fn a_misplaced_reply_ends_the_run() {
    let mut run = run_kv_contract();
    assert!(matches!(run.next_action(), Some(KvAction::Open)));
    run.observe(KvReply::Stored(Ok(())));
    assert!(matches!(run.violation(), Some(Violation::Misplaced)));

    let mut run = run_kv_contract();
    run.observe(KvReply::Ready);
    assert!(matches!(run.next_action(), Some(KvAction::Get { key: "nope" })));
    run.observe(KvReply::Deleted(Ok(false)));
    assert!(matches!(run.violation(), Some(Violation::Misplaced)));
}

#[test]
fn a_run_that_has_ended_stays_as_it_is() {
    let mut run = outcome(Fault::GhostValue);
    assert!(run.next_action().is_none());
    run.observe(KvReply::Ready);
    assert!(matches!(run.violation(), Some(Violation::Broken { .. })));
    assert!(!run.passed());

    let mut run = outcome(Fault::Nothing);
    run.observe(KvReply::Stored(Err(ClusterError::Timeout)));
    assert!(run.passed());
}

#[test]
fn a_run_names_the_first_breach() {
    let mut run = run_kv_contract();
    for _ in 0..2 {
        let missing = matches!(run.next_action(), Some(KvAction::Get { .. }));
        run.observe(if missing { KvReply::Fetched(Ok(None)) } else { KvReply::Ready });
    }
    run.observe(KvReply::Ready);
    assert!(matches!(run.next_action(), Some(KvAction::Put { key: "k", .. })));
    run.observe(KvReply::Stored(Ok(())));
    run.observe(KvReply::Fetched(Ok(None)));
    run.observe(KvReply::Fetched(Err(ClusterError::Shutdown)));
    assert!(matches!(
        run.violation(),
        Some(Violation::Broken { rule: "just-put key must exist" })
    ));
}

fn store_at(clock: &Rc<Cell<u128>>) -> MemoryStore {
    MemoryStore {
        clock: clock.clone(),
        fault: Fault::Nothing,
        slots: BTreeMap::new(),
        calls: 0,
        granularity: 1,
    }
}

/// One of several clients of a store.
struct Client(Rc<RefCell<MemoryStore>>);

impl KeyValueStore for Client {
    fn get(&mut self, key: &str) -> Result<Option<Entry>, ClusterError> {
        self.0.borrow_mut().get(key)
    }

    fn put(&mut self, key: &str, value: Bytes, ttl: Option<Duration>) -> Result<(), ClusterError> {
        self.0.borrow_mut().put(key, value, ttl)
    }

    fn put_if_absent(
        &mut self,
        key: &str,
        value: Bytes,
        ttl: Option<Duration>,
    ) -> Result<bool, ClusterError> {
        self.0.borrow_mut().put_if_absent(key, value, ttl)
    }

    fn delete(&mut self, key: &str) -> Result<bool, ClusterError> {
        self.0.borrow_mut().delete(key)
    }

    fn list_prefix(
        &mut self,
        prefix: &str,
        limit: usize,
    ) -> Result<Vec<(String, Entry)>, ClusterError> {
        self.0.borrow_mut().list_prefix(prefix, limit)
    }

    fn expire(&mut self, key: &str, ttl: Option<Duration>) -> Result<bool, ClusterError> {
        self.0.borrow_mut().expire(key, ttl)
    }

    fn incr(&mut self, key: &str, delta: i64, ttl: Option<Duration>) -> Result<i64, ClusterError> {
        self.0.borrow_mut().incr(key, delta, ttl)
    }
}

#[test]
fn of_two_clients_one_wins_the_claim() {
    let store = Rc::new(RefCell::new(store_at(&Rc::new(Cell::new(0)))));
    let (mut a, mut b) = (Client(store.clone()), Client(store));
    assert_eq!(a.put_if_absent("k", Bytes::from_static(b"a"), None), Ok(true));
    assert_eq!(b.put_if_absent("k", Bytes::from_static(b"b"), None), Ok(false));
    assert_eq!(b.get("k").unwrap().unwrap().bytes.as_ref(), b"a");
    assert_eq!(a.delete("k"), Ok(true));
    assert_eq!(b.put_if_absent("k", Bytes::from_static(b"b"), None), Ok(true));
}

#[test]
fn increments_of_two_clients_add_up() {
    let store = Rc::new(RefCell::new(store_at(&Rc::new(Cell::new(0)))));
    let (mut a, mut b) = (Client(store.clone()), Client(store));
    assert_eq!(a.incr("ctr", 3, None), Ok(3));
    assert_eq!(b.incr("ctr", 4, None), Ok(7));
    assert_eq!(a.incr("ctr", -2, None), Ok(5));
}

#[test]
fn a_failed_operation_is_reported_as_it_came() {
    let clock = Rc::new(Cell::new(0));
    let mut s = store_at(&clock);
    s.fault = Fault::PutFails;
    let put = KvAction::Put { key: "k", value: Bytes::from_static(b"v"), ttl: None };
    assert!(matches!(
        perform(&put, &mut s),
        KvReply::Stored(Err(ClusterError::BackendUnavailable { .. }))
    ));
    assert!(matches!(perform(&KvAction::Get { key: "k" }, &mut s), KvReply::Fetched(Ok(None))));
}

#[test]
fn a_claim_wins_again_only_once_the_key_is_free() {
    let clock = Rc::new(Cell::new(0));
    let mut s = store_at(&clock);
    let ttl = Some(Duration::from_secs(1));
    assert_eq!(s.put_if_absent("k", Bytes::from_static(b"a"), ttl), Ok(true));
    assert_eq!(s.put_if_absent("k", Bytes::from_static(b"b"), ttl), Ok(false));
    assert_eq!(s.get("k").unwrap().unwrap().bytes.as_ref(), b"a");
    clock.set(2_000_000_000);
    assert_eq!(s.put_if_absent("k", Bytes::from_static(b"c"), None), Ok(true));
    assert_eq!(s.delete("k"), Ok(true));
    assert_eq!(s.put_if_absent("k", Bytes::from_static(b"d"), None), Ok(true));
}

#[test]
fn a_read_gives_back_the_last_write_until_its_ttl_ends() {
    let clock = Rc::new(Cell::new(0));
    let mut s = store_at(&clock);
    s.put("k", Bytes::from_static(b"old"), None).unwrap();
    s.put("k", Bytes::from_static(b"new"), Some(Duration::from_secs(5))).unwrap();
    clock.set(4_999_999_999);
    let entry = s.get("k").unwrap().unwrap();
    assert_eq!(entry.bytes.as_ref(), b"new");
    assert_eq!(entry.expires_at, Some(Timestamp { unix_nanos: 5_000_000_000 }));
    clock.set(5_000_000_000);
    assert!(s.get("k").unwrap().is_none());
    assert_eq!(s.delete("k"), Ok(false));
}

#[test]
fn setting_a_ttl_keeps_the_value() {
    let clock = Rc::new(Cell::new(0));
    let mut s = store_at(&clock);
    s.put("k", Bytes::from_static(b"v"), None).unwrap();
    assert_eq!(s.expire("k", Some(Duration::from_secs(1))), Ok(true));
    assert_eq!(s.get("k").unwrap().unwrap().bytes.as_ref(), b"v");
    assert_eq!(s.expire("k", None), Ok(true));
    clock.set(9_000_000_000);
    assert_eq!(s.get("k").unwrap().unwrap().bytes.as_ref(), b"v");
}

#[test]
fn increments_add_up_or_change_nothing() {
    let clock = Rc::new(Cell::new(0));
    let mut s = store_at(&clock);
    assert_eq!(s.incr("ctr", i64::MAX - 1, None), Ok(i64::MAX - 1));
    assert_eq!(s.incr("ctr", 2, None), Err(counter_overflow("ctr")));
    assert_eq!(s.incr("ctr", 1, None), Ok(i64::MAX));
    assert_eq!(s.get("ctr").unwrap().unwrap().bytes.as_ref(), b"9223372036854775807");
}

#[test]
fn counters_with_a_ttl_add_up_until_it_runs_out() {
    let clock = Rc::new(Cell::new(0));
    let mut s = store_at(&clock);
    let ttl = Some(Duration::from_secs(1));
    assert_eq!(s.incr("ctr", 3, ttl), Ok(3));
    clock.set(900_000_000);
    assert_eq!(s.incr("ctr", 4, ttl), Ok(7));
    clock.set(1_800_000_000);
    assert_eq!(s.incr("ctr", 5, ttl), Ok(12));
    clock.set(3_000_000_000);
    assert_eq!(s.incr("ctr", 6, ttl), Ok(6));
}

#[test]
fn timing_presets() {
    let timing = KvContractTiming::default();
    assert_eq!(timing.short_ttl.as_nanos(), 50_000_000);
    assert_eq!(timing.expiry_slack.as_nanos(), 120_000_000);
    let timing = KvContractTiming::seconds_granularity();
    assert_eq!(timing.short_ttl.as_nanos(), 1_000_000_000);
    assert_eq!(timing.expiry_slack.as_nanos(), 1_500_000_000);
}

#[test]
fn timing_must_leave_room_for_the_waits() {
    let longest = Duration::from_secs(u64::MAX);
    let second = Duration::from_secs(1);
    assert!(KvContractTiming::default().is_usable());
    assert!(!KvContractTiming { short_ttl: longest, expiry_slack: second }.is_usable());
    assert!(!KvContractTiming { short_ttl: second, expiry_slack: longest }.is_usable());
    assert!(KvContractTiming {
        short_ttl: longest.divided_by(4),
        expiry_slack: longest.divided_by(4)
    }
    .is_usable());
}

#[test]
fn the_battery_waits_as_the_timing_says() {
    let timing = KvContractTiming {
        short_ttl: Duration::from_nanos(103).unwrap(),
        expiry_slack: Duration::from_nanos(7).unwrap(),
    };
    let clock = Rc::new(Cell::new(0));
    let open = || MemoryStore {
        clock: clock.clone(),
        fault: Fault::Nothing,
        slots: BTreeMap::new(),
        calls: 0,
        granularity: 1,
    };
    let mut run = run_kv_contract_with(timing);
    let mut store = open();
    let mut waits = vec![];
    let mut opened = 0;
    while let Some(action) = run.next_action() {
        let reply = match action {
            KvAction::Open => {
                opened += 1;
                store = open();
                KvReply::Ready
            }
            KvAction::Pause { span } => {
                waits.push(span.as_nanos());
                clock.set(clock.get() + span.as_nanos());
                KvReply::Ready
            }
            _ => perform(action, &mut store),
        };
        run.observe(reply);
    }
    assert!(run.passed());
    assert_eq!(opened, 13);
    assert_eq!(waits, vec![110, 110, 110, 154, 174, 316]);
}
