//! Stored entries and the shapes in which they cross the plugin boundary.
//!
//! A coordinator is loaded as a dynamic library and called through synchronous
//! slots, each of which takes one argument record. Times cross that boundary as
//! whole milliseconds: a TTL as a length, an expiry as a Unix timestamp.

use bytes::Bytes;
use vstd::prelude::*;
use vstd::string::*;

use crate::error::{mentions, ClusterError};
use crate::kv_model::{KvAnswer, KvHandle, KvOp};
use crate::payload::{as_slice, contents, from_vec};
use crate::time::{span_of, Duration, Timestamp, NANOS_PER_MILLI};

verus! {

/// A stored value with optional expiry.
#[derive(Debug)]
pub struct Entry {
    pub bytes: Bytes,
    /// When the entry expires; `None` when it has no TTL.
    pub expires_at: Option<Timestamp>,
}

/// What an [`Entry`] says: its bytes, and its expiry in nanoseconds since the
/// Unix epoch.
pub ghost struct EntryView {
    pub bytes: Seq<u8>,
    pub expires_at: Option<int>,
}

impl View for Entry {
    type V = EntryView;

    open spec fn view(&self) -> EntryView {
        EntryView {
            bytes: contents(self.bytes),
            expires_at: match self.expires_at {
                Some(t) => Some(t.unix_nanos as int),
                None => None,
            },
        }
    }
}

impl Clone for Entry {
    fn clone(&self) -> (r: Self)
        ensures
            r@ == self@,
    {
        Entry { bytes: self.bytes.clone(), expires_at: self.expires_at }
    }
}

/// What is said of an entry that may be missing.
pub open spec fn found_view(found: Option<Entry>) -> Option<EntryView> {
    match found {
        Some(entry) => Some(entry@),
        None => None,
    }
}

/// The keys and entries of a listing.
pub open spec fn listing_view(listing: Seq<(String, Entry)>) -> Seq<(Seq<char>, EntryView)> {
    listing.map_values(|pair: (String, Entry)| (pair.0@, pair.1@))
}

/// The answer that a fetched entry stands for.
pub open spec fn fetched(r: Result<Option<Entry>, ClusterError>) -> KvAnswer {
    match r {
        Ok(found) => KvAnswer::Fetched(found_view(found)),
        Err(e) => KvAnswer::Failed(e),
    }
}

/// The answer that the result of a write stands for.
pub open spec fn stored(r: Result<(), ClusterError>) -> KvAnswer {
    match r {
        Ok(_) => KvAnswer::Stored,
        Err(e) => KvAnswer::Failed(e),
    }
}

/// The answer that the result of a claim stands for.
pub open spec fn claimed(r: Result<bool, ClusterError>) -> KvAnswer {
    match r {
        Ok(won) => KvAnswer::Claimed(won),
        Err(e) => KvAnswer::Failed(e),
    }
}

/// The answer that the result of a deletion stands for.
pub open spec fn deleted(r: Result<bool, ClusterError>) -> KvAnswer {
    match r {
        Ok(existed) => KvAnswer::Deleted(existed),
        Err(e) => KvAnswer::Failed(e),
    }
}

/// The answer that a listing stands for.
pub open spec fn listed(r: Result<Vec<(String, Entry)>, ClusterError>) -> KvAnswer {
    match r {
        Ok(listing) => KvAnswer::Listed(listing_view(listing@)),
        Err(e) => KvAnswer::Failed(e),
    }
}

/// The answer that the result of setting a TTL stands for.
pub open spec fn expired(r: Result<bool, ClusterError>) -> KvAnswer {
    match r {
        Ok(existed) => KvAnswer::Expired(existed),
        Err(e) => KvAnswer::Failed(e),
    }
}

/// The answer that the result of an increment stands for.
pub open spec fn counted(r: Result<i64, ClusterError>) -> KvAnswer {
    match r {
        Ok(n) => KvAnswer::Counted(n as int),
        Err(e) => KvAnswer::Failed(e),
    }
}

/// Durable namespaced key/value store.
///
/// A value of the implementing type is one client; other clients, on any replica,
/// may share the store. Each operation takes its place in the history of the store,
/// as [`KvHandle::answered`] says: what went before is never forgotten, whoever did
/// it. Where an operation fails, it may or may not have taken effect, except that a
/// refused increment changes nothing.
///
/// Keys are bounded by the operator. A backend may limit the length of keys and
/// the size of values; beyond it, it answers [`ClusterError::Precondition`].
pub trait KeyValueStore: Sized {
    /// What the client stands in with the store, up to its last operation.
    open spec fn handle(&self) -> KvHandle {
        arbitrary()
    }

    /// Fetches the value of `key`; `None` when there is none.
    fn get(&mut self, key: &str) -> (r: Result<Option<Entry>, ClusterError>)
        ensures
            final(self).handle().answered(
                old(self).handle(),
                KvOp::Get { key: key@ },
                fetched(r),
            ),
    ;

    /// Stores `value` under `key`, for `ttl` or until it is deleted.
    fn put(&mut self, key: &str, value: Bytes, ttl: Option<Duration>) -> (r: Result<
        (),
        ClusterError,
    >)
        ensures
            final(self).handle().answered(
                old(self).handle(),
                KvOp::Put { key: key@, bytes: contents(value), ttl: span_of(ttl) },
                stored(r),
            ),
    ;

    /// Stores `value` under `key` only where the key is absent; an expired entry
    /// counts as absent. Tells whether it did.
    ///
    /// This is the single-winner claim across replicas, so it has no default in
    /// terms of `get` and `put`: each backend does it atomically.
    fn put_if_absent(&mut self, key: &str, value: Bytes, ttl: Option<Duration>) -> (r: Result<
        bool,
        ClusterError,
    >)
        ensures
            final(self).handle().answered(
                old(self).handle(),
                KvOp::PutIfAbsent { key: key@, bytes: contents(value), ttl: span_of(ttl) },
                claimed(r),
            ),
    ;

    /// Deletes `key`. Tells whether it was there.
    fn delete(&mut self, key: &str) -> (r: Result<bool, ClusterError>)
        ensures
            final(self).handle().answered(
                old(self).handle(),
                KvOp::Delete { key: key@ },
                deleted(r),
            ),
    ;

    /// Lists the entries under `prefix`, at most `limit` of them, in any order. There
    /// may be fewer than `limit` though there are more under the prefix.
    fn list_prefix(&mut self, prefix: &str, limit: usize) -> (r: Result<
        Vec<(String, Entry)>,
        ClusterError,
    >)
        ensures
            final(self).handle().answered(
                old(self).handle(),
                KvOp::ListPrefix { prefix: prefix@, limit: limit as nat },
                listed(r),
            ),
    ;

    /// Sets the TTL of an existing key and leaves its value alone. Tells whether
    /// the key is there.
    fn expire(&mut self, key: &str, ttl: Option<Duration>) -> (r: Result<bool, ClusterError>)
        ensures
            final(self).handle().answered(
                old(self).handle(),
                KvOp::Expire { key: key@, ttl: span_of(ttl) },
                expired(r),
            ),
    ;

    /// Adds `delta` to the counter under `key`, which starts from 0, and returns
    /// the new value. Each call arms `ttl` anew. A value that is no counter, and
    /// a sum beyond `i64`, are refused.
    fn incr(&mut self, key: &str, delta: i64, ttl: Option<Duration>) -> (r: Result<
        i64,
        ClusterError,
    >)
        ensures
            final(self).handle().answered(
                old(self).handle(),
                KvOp::Incr { key: key@, delta: delta as int, ttl: span_of(ttl) },
                counted(r),
            ),
    ;
}

/// An instant on the wire: whole milliseconds since the Unix epoch, rounded
/// down, and held to the range of `u64`.
pub open spec fn wire_millis(unix_nanos: int) -> int {
    let millis = unix_nanos / (NANOS_PER_MILLI as int);
    if millis < 0 {
        0
    } else if millis > u64::MAX {
        u64::MAX as int
    } else {
        millis
    }
}

/// Wire form of an [`Entry`].
#[derive(Debug, Clone, PartialEq, Eq)]
pub struct KvEntryWire {
    pub bytes: Vec<u8>,
    /// The expiry in milliseconds since the Unix epoch; `None` without a TTL.
    pub expires_at_unix_ms: Option<u64>,
}

/// What a [`KvEntryWire`] says.
pub ghost struct KvEntryWireView {
    pub bytes: Seq<u8>,
    pub expires_at_unix_ms: Option<u64>,
}

impl View for KvEntryWire {
    type V = KvEntryWireView;

    open spec fn view(&self) -> KvEntryWireView {
        KvEntryWireView { bytes: self.bytes@, expires_at_unix_ms: self.expires_at_unix_ms }
    }
}

/// The wire form of an entry.
pub open spec fn wire_of(entry: EntryView) -> KvEntryWireView {
    KvEntryWireView {
        bytes: entry.bytes,
        expires_at_unix_ms: match entry.expires_at {
            Some(t) => Some(wire_millis(t) as u64),
            None => None,
        },
    }
}

/// The entry that a wire form stands for.
pub open spec fn entry_of(wire: KvEntryWireView) -> EntryView {
    EntryView {
        bytes: wire.bytes,
        expires_at: match wire.expires_at_unix_ms {
            Some(ms) => Some(ms * NANOS_PER_MILLI),
            None => None,
        },
    }
}

impl KvEntryWire {
    /// Encodes an entry for the wire. An expiry before the epoch clamps to 0,
    /// one past the range of `u64` milliseconds to the largest.
    #[must_use]
    pub fn from_entry(entry: &Entry) -> (r: Self)
        ensures
            r@ == wire_of(entry@),
    {
        let expires_at_unix_ms = match entry.expires_at {
            Some(t) => Some(unix_millis(t)),
            None => None,
        };
        KvEntryWire { bytes: vstd::slice::slice_to_vec(as_slice(&entry.bytes)), expires_at_unix_ms }
    }

    /// Decodes back into an entry.
    #[must_use]
    pub fn into_entry(self) -> (r: Entry)
        ensures
            r@ == entry_of(self@),
    {
        let expires_at = match self.expires_at_unix_ms {
            Some(ms) => Some(Timestamp { unix_nanos: (ms as i128) * 1_000_000 }),
            None => None,
        };
        Entry { bytes: from_vec(self.bytes), expires_at }
    }
}

/// Decoding and encoding again gives the wire form back, whatever it is.
pub proof fn law_wire_survives_decoding(wire: KvEntryWireView)
    ensures
        wire_of(entry_of(wire)) == wire,
{
    if let Some(ms) = wire.expires_at_unix_ms {
        assert((ms * NANOS_PER_MILLI) / (NANOS_PER_MILLI as int) == ms);
    }
}

/// Encoding and decoding again keeps the bytes, and keeps an absent expiry
/// absent; an expiry at or after the epoch, in the range of the wire, comes back
/// rounded down to the millisecond.
pub proof fn law_entry_survives_encoding(entry: EntryView)
    ensures
        entry_of(wire_of(entry)).bytes == entry.bytes,
        entry_of(wire_of(entry)).expires_at is None == entry.expires_at is None,
        entry.expires_at matches Some(t) ==> (0 <= t < (u64::MAX + 1) * NANOS_PER_MILLI
            ==> entry_of(wire_of(entry)).expires_at == Some(t - t % (NANOS_PER_MILLI as int))),
{
}

/// An entry whose expiry is a whole millisecond in the range of the wire, or
/// that has none, survives the wire unchanged.
pub proof fn law_whole_millisecond_entry_round_trips(entry: EntryView)
    requires
        entry.expires_at matches Some(t) ==> t % (NANOS_PER_MILLI as int) == 0 && 0 <= t
            <= u64::MAX * NANOS_PER_MILLI,
    ensures
        entry_of(wire_of(entry)) == entry,
{
    law_entry_survives_encoding(entry);
}

/// Milliseconds since the epoch, held to the range of `u64`.
fn unix_millis(t: Timestamp) -> (r: u64)
    ensures
        r == wire_millis(t.unix_nanos as int),
{
    if t.unix_nanos < 0 {
        0
    } else {
        let millis: u128 = (t.unix_nanos as u128) / NANOS_PER_MILLI;
        if millis > u64::MAX as u128 {
            u64::MAX
        } else {
            millis as u64
        }
    }
}

/// Arguments of the `kv_get` and `kv_delete` slots.
#[derive(Debug, Clone)]
pub struct KvKeyArgs {
    pub key: String,
}

/// Arguments of the `kv_put` and `kv_put_if_absent` slots.
#[derive(Debug, Clone)]
pub struct KvPutArgs {
    pub key: String,
    pub value: Vec<u8>,
    pub ttl_ms: Option<u64>,
}

/// Arguments of the `kv_list_prefix` slot.
#[derive(Debug, Clone)]
pub struct KvListPrefixArgs {
    pub prefix: String,
    pub limit: u64,
}

/// One `(key, entry)` pair of a `kv_list_prefix` reply.
#[derive(Debug, Clone, PartialEq, Eq)]
pub struct KvListEntryWire {
    pub key: String,
    pub entry: KvEntryWire,
}

/// Arguments of the `kv_expire` slot.
#[derive(Debug, Clone)]
pub struct KvExpireArgs {
    pub key: String,
    pub ttl_ms: Option<u64>,
}

/// Arguments of the `kv_incr` slot.
#[derive(Debug, Clone)]
pub struct KvIncrArgs {
    pub key: String,
    pub delta: i64,
    pub ttl_ms: Option<u64>,
}

/// The decimal digit with value `d`, in ASCII.
pub open spec fn ascii_digit(d: nat) -> u8 {
    (48 + d) as u8
}

/// Whether `b` is an ASCII decimal digit.
pub open spec fn is_ascii_digit(b: u8) -> bool {
    48 <= b <= 57
}

/// Whether `s` is one or more ASCII decimal digits.
pub open spec fn is_numeral(s: Seq<u8>) -> bool {
    s.len() > 0 && forall|i: int| 0 <= i < s.len() ==> is_ascii_digit(#[trigger] s[i])
}

/// The number that the digits of `s` write in base 10.
pub open spec fn numeral_value(s: Seq<u8>) -> nat
    decreases s.len(),
{
    if s.len() == 0 {
        0
    } else {
        (numeral_value(s.drop_last()) * 10 + (s.last() - 48)) as nat
    }
}

/// The digits of `n` in base 10, without leading zeros.
pub open spec fn numeral_of(n: nat) -> Seq<u8>
    decreases n,
{
    if n < 10 {
        seq![ascii_digit(n)]
    } else {
        numeral_of(n / 10).push(ascii_digit(n % 10))
    }
}

/// The integer that stored counter bytes write: an optional sign and a decimal
/// numeral, within the range of `i64`.
pub open spec fn counter_value(bytes: Seq<u8>) -> Option<int> {
    let signed = bytes.len() > 0 && (bytes[0] == 45 || bytes[0] == 43);
    let digits = if signed {
        bytes.drop_first()
    } else {
        bytes
    };
    let magnitude = numeral_value(digits) as int;
    let value = if signed && bytes[0] == 45 {
        -magnitude
    } else {
        magnitude
    };
    if is_numeral(digits) && i64::MIN <= value <= i64::MAX {
        Some(value)
    } else {
        None
    }
}

/// The bytes in which a counter of value `v` is stored: ASCII base 10.
pub open spec fn counter_bytes(v: int) -> Seq<u8> {
    if v < 0 {
        seq![45u8] + numeral_of((-v) as nat)
    } else {
        numeral_of(v as nat)
    }
}

/// The reason given for stored bytes that are no counter.
pub open spec fn not_a_counter_reason(key: Seq<char>) -> Seq<char> {
    "value of `"@ + key + "` is not a base-10 integer"@
}

/// The reason given for an increment that leaves the range of `i64`.
pub open spec fn counter_overflow_reason(key: Seq<char>) -> Seq<char> {
    "increment of `"@ + key + "` leaves the range of a 64-bit counter"@
}

/// Reads the counter stored under `key`. Bytes that are not a base-10 integer
/// in the range of `i64` are refused.
pub fn parse_counter(key: &str, bytes: &[u8]) -> (r: Result<i64, ClusterError>)
    ensures
        match counter_value(bytes@) {
            Some(v) => r matches Ok(n) && n == v,
            None => r matches Err(ClusterError::Precondition { reason }) && reason@
                == not_a_counter_reason(key@),
        },
{
    match scan_counter(bytes) {
        Some(n) => Ok(n),
        None => Err(
            ClusterError::Precondition {
                reason: "value of `".to_owned().concat(key).concat("` is not a base-10 integer"),
            },
        ),
    }
}

/// The error of an increment that would leave the range of `i64`.
#[must_use]
pub fn counter_overflow(key: &str) -> (r: ClusterError)
    ensures
        r matches ClusterError::Precondition { reason } && reason@ == counter_overflow_reason(key@),
{
    ClusterError::Precondition {
        reason: "increment of `".to_owned().concat(key).concat(
            "` leaves the range of a 64-bit counter",
        ),
    }
}

/// Reads an optional sign and a numeral.
fn scan_counter(bytes: &[u8]) -> (r: Option<i64>)
    ensures
        match counter_value(bytes@) {
            Some(v) => r matches Some(n) && n == v,
            None => r is None,
        },
{
    let signed: bool = bytes.len() > 0 && (bytes[0] == 45 || bytes[0] == 43);
    let negative: bool = signed && bytes[0] == 45;
    let start: usize = if signed {
        1
    } else {
        0
    };
    let ghost digits = bytes@.skip(start as int);
    proof {
        assert(signed ==> digits =~= bytes@.drop_first());
        assert(!signed ==> digits =~= bytes@);
    }
    if start == bytes.len() {
        return None;
    }
    let mut magnitude: u128 = 0;
    let mut i: usize = start;
    while i < bytes.len()
        invariant
            start <= i <= bytes.len(),
            digits == bytes@.skip(start as int),
            forall|j: int| 0 <= j < i - start ==> is_ascii_digit(#[trigger] digits[j]),
            magnitude == numeral_value(digits.take(i - start)),
            magnitude <= 9_223_372_036_854_775_808,
            i == start ==> magnitude == 0,
            digits == (if signed { bytes@.drop_first() } else { bytes@ }),
            signed == (bytes@.len() > 0 && (bytes@[0] == 45 || bytes@[0] == 43)),
        decreases bytes.len() - i,
    {
        let b: u8 = bytes[i];
        proof {
            assert(digits[i - start] == b);
        }
        if b < 48 || b > 57 {
            return None;
        }
        proof {
            let next = digits.take(i - start + 1);
            assert(next.drop_last() =~= digits.take(i - start));
            assert(next.last() == b);
        }
        magnitude = magnitude * 10 + ((b - 48) as u128);
        i += 1;
        if magnitude > 9_223_372_036_854_775_808 {
            proof {
                lemma_numeral_value_grows(digits, i - start);
            }
            return None;
        }
    }
    proof {
        assert(digits.take(i - start) =~= digits);
    }
    if negative {
        if magnitude == 9_223_372_036_854_775_808 {
            Some(i64::MIN)
        } else {
            Some(-(magnitude as i64))
        }
    } else if magnitude == 9_223_372_036_854_775_808 {
        None
    } else {
        Some(magnitude as i64)
    }
}

/// A numeral is worth at least as much as any of its prefixes.
proof fn lemma_numeral_value_grows(s: Seq<u8>, n: int)
    requires
        0 <= n <= s.len(),
        is_numeral(s) || is_numeral(s.take(n)),
    ensures
        is_numeral(s) ==> numeral_value(s.take(n)) <= numeral_value(s),
    decreases s.len(),
{
    if is_numeral(s) && n < s.len() {
        let shorter = s.drop_last();
        if shorter.len() > 0 {
            assert(is_numeral(shorter));
            lemma_numeral_value_grows(shorter, n);
        }
        assert(shorter.take(n) =~= s.take(n));
        assert(is_ascii_digit(s[s.len() - 1]));
    } else {
        assert(n == s.len() ==> s.take(n) =~= s);
    }
}

proof fn lemma_numeral_round_trip(n: nat)
    ensures
        is_numeral(numeral_of(n)),
        numeral_value(numeral_of(n)) == n,
        numeral_of(n)[0] != 45,
        numeral_of(n)[0] != 43,
    decreases n,
{
    if n < 10 {
        let s = seq![ascii_digit(n)];
        assert(s.drop_last() =~= Seq::<u8>::empty());
        assert(numeral_value(s.drop_last()) == 0);
    } else {
        lemma_numeral_round_trip(n / 10);
        let s = numeral_of(n);
        assert(s.drop_last() =~= numeral_of(n / 10));
        assert forall|i: int| 0 <= i < s.len() implies is_ascii_digit(#[trigger] s[i]) by {
            if i < s.len() - 1 {
                assert(s[i] == numeral_of(n / 10)[i]);
            }
        }
        assert(s[0] == numeral_of(n / 10)[0]);
    }
}

/// A counter reads back as the value it was stored with.
pub proof fn law_counter_reads_back(v: i64)
    ensures
        counter_value(counter_bytes(v as int)) == Some(v as int),
{
    let s = counter_bytes(v as int);
    if v < 0 {
        lemma_numeral_round_trip((-v) as nat);
        assert(s.drop_first() =~= numeral_of((-v) as nat));
    } else {
        lemma_numeral_round_trip(v as nat);
    }
}

/// The wire carries the very bytes of an entry, and an entry holds the very bytes of
/// the wire form that it was decoded from.
pub proof fn law_wire_carries_bytes(entry: Entry, wire: KvEntryWire)
    ensures
        wire_of(entry@).bytes == contents(entry.bytes),
        entry_of(wire@).bytes == wire.bytes@,
{
}

/// The wire carries the expiry of an entry as the last whole millisecond that is not
/// after it. An expiry before the epoch is carried as the epoch, one beyond the wire as
/// the latest that it can carry, and none as none.
pub proof fn law_wire_carries_expiry(entry: Entry)
    ensures
        match (entry.expires_at, wire_of(entry@).expires_at_unix_ms) {
            (None, None) => true,
            (Some(t), Some(ms)) => {
                &&& t.unix_nanos < 0 ==> ms == 0
                &&& t.unix_nanos >= 0 ==> ms * 1_000_000 <= t.unix_nanos
                &&& t.unix_nanos >= 0 && ms < 18_446_744_073_709_551_615 ==> t.unix_nanos < (ms + 1)
                    * 1_000_000
            },
            _ => false,
        },
{
}

/// An entry that was decoded expires at the very millisecond that the wire form says,
/// or not at all.
pub proof fn law_decoded_expiry_is_that_of_the_wire(wire: KvEntryWire)
    ensures
        match (wire.expires_at_unix_ms, entry_of(wire@).expires_at) {
            (None, None) => true,
            (Some(ms), Some(t)) => t == ms * 1_000_000,
            _ => false,
        },
{
}

/// What is said of an entry, of a wire form and of a listing is all that there is to
/// say of them.
pub proof fn law_views_leave_nothing_out(
    entry: Entry,
    wire: KvEntryWire,
    listing: Seq<(String, Entry)>,
    i: int,
)
    requires
        0 <= i < listing.len(),
    ensures
        entry@.bytes == contents(entry.bytes),
        entry@.expires_at is None == entry.expires_at is None,
        entry.expires_at matches Some(t) ==> entry@.expires_at == Some(t.unix_nanos as int),
        wire@.bytes == wire.bytes@,
        wire@.expires_at_unix_ms == wire.expires_at_unix_ms,
        listing_view(listing).len() == listing.len(),
        listing_view(listing)[i] == (listing[i].0@, listing[i].1@),
{
}

/// Stored bytes count only as an optional sign and one or more ASCII digits, and only
/// in the range of `i64`.
pub proof fn law_counter_is_sign_and_digits(bytes: Seq<u8>)
    requires
        counter_value(bytes) is Some,
    ensures
        bytes.len() > 0,
        48 <= bytes.last() <= 57,
        forall|i: int| 0 < i < bytes.len() ==> 48 <= #[trigger] bytes[i] <= 57,
        48 <= bytes[0] <= 57 || bytes[0] == 43 || bytes[0] == 45,
        -9_223_372_036_854_775_808 <= counter_value(bytes)->0 <= 9_223_372_036_854_775_807,
{
    let signed = bytes[0] == 45 || bytes[0] == 43;
    let digits = if signed {
        bytes.drop_first()
    } else {
        bytes
    };
    assert forall|i: int| 0 < i < bytes.len() implies 48 <= #[trigger] bytes[i] <= 57 by {
        assert(is_ascii_digit(digits[if signed {
            i - 1
        } else {
            i
        }]));
    }
    if !signed {
        assert(is_ascii_digit(digits[0]));
    }
    assert(bytes.last() == bytes[bytes.len() - 1]);
}

/// What a counter is worth, one byte at a time. Nothing but a digit can end a counter.
/// A digit by itself is worth its value, after `-` the opposite, and a further digit
/// makes ten times of what was before, and itself. What was no counter, but for a bare
/// sign, becomes none.
pub proof fn law_counter_grows_by_digits(bytes: Seq<u8>, c: u8)
    ensures
        counter_value(seq![]) is None,
        !(48 <= c <= 57) ==> counter_value(bytes.push(c)) is None,
        48 <= c <= 57 ==> counter_value(bytes.push(c)) == (if bytes.len() == 0 {
            Some(c - 48)
        } else if bytes.len() == 1 && bytes[0] == 43 {
            Some(c - 48)
        } else if bytes.len() == 1 && bytes[0] == 45 {
            Some(48 - c)
        } else {
            match counter_value(bytes) {
                None => None,
                Some(v) => {
                    let next = if bytes[0] == 45 {
                        v * 10 - (c - 48)
                    } else {
                        v * 10 + (c - 48)
                    };
                    if -9_223_372_036_854_775_808 <= next <= 9_223_372_036_854_775_807 {
                        Some(next)
                    } else {
                        None
                    }
                },
            }
        }),
{
    let more = bytes.push(c);
    let signed = more[0] == 45 || more[0] == 43;
    let digits = if signed {
        more.drop_first()
    } else {
        more
    };
    let before = digits.drop_last();
    if digits.len() > 0 {
        assert(digits.last() == c);
        assert(digits[digits.len() - 1] == c);
        assert(is_numeral(digits) ==> is_ascii_digit(c));
        if bytes.len() > 0 {
            assert(more[0] == bytes[0]);
            if signed {
                assert(before =~= bytes.drop_first());
            } else {
                assert(before =~= bytes);
            }
        } else {
            assert(before =~= seq![]);
        }
        if is_ascii_digit(c) {
            assert(is_numeral(digits) == (before.len() == 0 || is_numeral(before))) by {
                if is_numeral(digits) {
                    assert forall|i: int| 0 <= i < before.len() implies is_ascii_digit(
                        #[trigger] before[i],
                    ) by {
                        assert(digits[i] == before[i]);
                    }
                }
                if before.len() == 0 || is_numeral(before) {
                    assert forall|i: int| 0 <= i < digits.len() implies is_ascii_digit(
                        #[trigger] digits[i],
                    ) by {
                        if i < before.len() {
                            assert(digits[i] == before[i]);
                        }
                    }
                }
            }
            assert(numeral_value(digits) == numeral_value(before) * 10 + (c - 48));
            if before.len() == 0 {
                assert(numeral_value(before) == 0);
            }
        }
    }
}

proof fn lemma_no_leading_zero(n: nat)
    ensures
        numeral_of(n).len() > 0,
        n > 0 ==> numeral_of(n)[0] != 48,
        n == 0 ==> numeral_of(n) == seq![48u8],
    decreases n,
{
    if n >= 10 {
        lemma_no_leading_zero(n / 10);
        assert(numeral_of(n)[0] == numeral_of(n / 10)[0]);
    }
}

/// A counter is stored in ASCII digits without leading zeros, after a `-` where it is
/// negative, and in no other way.
pub proof fn law_counter_is_stored_plainly(v: i64)
    ensures
        ({
            let bytes = counter_bytes(v as int);
            let start: int = if v < 0 {
                1
            } else {
                0
            };
            &&& bytes.len() > start
            &&& v < 0 ==> bytes[0] == 45
            &&& forall|i: int| start <= i < bytes.len() ==> 48 <= #[trigger] bytes[i] <= 57
            &&& v != 0 ==> bytes[start] != 48
            &&& v == 0 ==> bytes.len() == 1
        }),
{
    let bytes = counter_bytes(v as int);
    let n = (if v < 0 {
        -v
    } else {
        v as int
    }) as nat;
    lemma_no_leading_zero(n);
    lemma_numeral_round_trip(n);
    let digits = numeral_of(n);
    if v < 0 {
        assert forall|i: int| 1 <= i < bytes.len() implies 48 <= #[trigger] bytes[i] <= 57 by {
            assert(bytes[i] == digits[i - 1]);
            assert(is_ascii_digit(digits[i - 1]));
        }
        assert(bytes[1] == digits[0]);
    } else {
        assert forall|i: int| 0 <= i < bytes.len() implies 48 <= #[trigger] bytes[i] <= 57 by {
            assert(is_ascii_digit(digits[i]));
        }
    }
}

/// The errors of a counter name its key, and what they say around it is always the
/// same.
pub proof fn law_counter_errors_name_the_key(a: Seq<char>, b: Seq<char>)
    ensures
        mentions(not_a_counter_reason(a), a),
        mentions(counter_overflow_reason(a), a),
        exists|head: Seq<char>, tail: Seq<char>|
            not_a_counter_reason(a) == #[trigger] (head + a + tail) && not_a_counter_reason(b)
                == head + b + tail,
        exists|head: Seq<char>, tail: Seq<char>|
            counter_overflow_reason(a) == #[trigger] (head + a + tail) && counter_overflow_reason(b)
                == head + b + tail,
{
    let refused = not_a_counter_reason(a);
    let overflow = counter_overflow_reason(a);
    let i = "value of `"@.len() as int;
    let j = "increment of `"@.len() as int;
    assert(refused.subrange(i, i + a.len()) =~= a);
    assert(overflow.subrange(j, j + a.len()) =~= a);
    assert(refused == "value of `"@ + a + "` is not a base-10 integer"@);
    assert(overflow == "increment of `"@ + a + "` leaves the range of a 64-bit counter"@);
}

} // verus!
