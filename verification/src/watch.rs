//! Durable feed of the changes under a key prefix, in order.
//!
//! Where [`crate::pub_sub`] forgets, a watch goes back as far as the backend
//! retains changes.

use bytes::Bytes;
use vstd::prelude::*;

use crate::error::ClusterError;
use crate::log::{lemma_filtered, lemma_one_log, longer, one_log};
use crate::payload::contents;

verus! {

/// What happened to a watched key.
#[derive(Debug, Clone, Copy, PartialEq, Eq, Structural)]
pub enum WatchEventKind {
    /// The key was created.
    Created,
    /// Its value was updated.
    Updated,
    /// It was deleted, or its TTL ran out.
    Deleted,
}

/// One change to a watched key.
#[derive(Debug)]
pub struct WatchEvent {
    pub key: String,
    pub kind: WatchEventKind,
    /// The new value where the key was created or updated. Where it was deleted,
    /// the last known value, if the backend can supply it.
    pub value: Option<Bytes>,
}

/// What a [`WatchEvent`] says.
pub ghost struct WatchEventView {
    pub key: Seq<char>,
    pub kind: WatchEventKind,
    pub value: Option<Seq<u8>>,
}

impl View for WatchEvent {
    type V = WatchEventView;

    open spec fn view(&self) -> WatchEventView {
        WatchEventView {
            key: self.key@,
            kind: self.kind,
            value: match self.value {
                Some(bytes) => Some(contents(bytes)),
                None => None,
            },
        }
    }
}

impl Clone for WatchEvent {
    fn clone(&self) -> (r: Self)
        ensures
            r@ == self@,
    {
        let value = match &self.value {
            Some(bytes) => Some(bytes.clone()),
            None => None,
        };
        WatchEvent { key: self.key.clone(), kind: self.kind, value }
    }
}

/// Whether an event tells of a key under `prefix`, with its value where it has
/// one.
pub open spec fn is_event_under(prefix: Seq<char>, event: WatchEventView) -> bool {
    &&& prefix.is_prefix_of(event.key)
    &&& !(event.kind is Deleted) ==> event.value is Some
}

/// Whether `places` tells, for each event that was `seen`, which of the `changes`
/// it is, later ones for later events.
pub open spec fn places_in_order(
    seen: Seq<WatchEventView>,
    changes: Seq<WatchEventView>,
    places: Seq<int>,
) -> bool {
    &&& places.len() == seen.len()
    &&& forall|i: int|
        #![trigger places[i]]
        0 <= i < places.len() ==> 0 <= places[i] < changes.len() && seen[i] == changes[places[i]]
    &&& forall|i: int, j: int|
        #![trigger places[i], places[j]]
        0 <= i < j < places.len() ==> places[i] < places[j]
}

/// Whether the events `seen` are among the `changes`, in their order.
pub open spec fn seen_in_order(seen: Seq<WatchEventView>, changes: Seq<WatchEventView>) -> bool {
    exists|places: Seq<int>| places_in_order(seen, changes, places)
}

/// What a watcher stands in with the feed of a backend.
pub ghost struct WatcherView {
    /// The prefix that is watched.
    pub prefix: Seq<char>,
    /// Every change that the backend has had, to whichever key, as far as it has come
    /// to the watcher.
    pub feed: Seq<WatchEventView>,
    /// From where on the backend retained changes when the watcher began.
    pub retained: nat,
    /// What the watcher has seen.
    pub seen: Seq<WatchEventView>,
}

impl WatcherView {
    /// The changes that are for the watcher: those under the prefix, as far back as
    /// they were retained.
    pub open spec fn changes(self) -> Seq<WatchEventView> {
        self.feed.skip(self.retained as int).filter(
            |event: WatchEventView| is_event_under(self.prefix, event),
        )
    }

    /// Whether the watcher has just begun, on a feed with these changes so far.
    pub open spec fn is_new(self, prefix: Seq<char>, feed: Seq<WatchEventView>) -> bool {
        &&& self.prefix == prefix
        &&& self.feed == feed
        &&& self.retained <= feed.len()
        &&& self.seen.len() == 0
    }

    /// Whether this is the watcher after `before`, once it has seen `more`.
    pub open spec fn saw_more(self, before: WatcherView, more: Seq<WatchEventView>) -> bool {
        &&& self.prefix == before.prefix
        &&& self.retained == before.retained
        &&& self.retained <= self.feed.len()
        &&& before.feed.is_prefix_of(self.feed)
        &&& self.seen == before.seen + more
        &&& seen_in_order(self.seen, self.changes())
    }
}

/// The events that an answer of a stream brings.
pub open spec fn shown(r: Option<Result<WatchEvent, ClusterError>>) -> Seq<WatchEventView> {
    match r {
        Some(Ok(event)) => seq![event@],
        _ => seq![],
    }
}

/// The changes under a prefix, as they come.
pub trait WatchStream: Sized {
    /// What the watcher stands in with the feed.
    open spec fn watcher(&self) -> WatcherView {
        arbitrary()
    }

    /// The next change; `None` once the stream has ended. An error may be the last
    /// that the stream has to say; the watcher may then watch anew.
    fn next(&mut self) -> (r: Option<Result<WatchEvent, ClusterError>>)
        ensures
            final(self).watcher().saw_more(old(self).watcher(), shown(r)),
    ;
}

/// Change notification over a key prefix.
pub trait Watch: Sized {
    type Stream: WatchStream;

    /// Every change that the backend has had, to whichever key.
    open spec fn feed(&self) -> Seq<WatchEventView> {
        arbitrary()
    }

    /// Watches every key under `prefix`.
    fn watch_prefix(&mut self, prefix: &str) -> (r: Result<Self::Stream, ClusterError>)
        ensures
            old(self).feed().is_prefix_of(final(self).feed()),
            r matches Ok(stream) ==> stream.watcher().is_new(prefix@, final(self).feed()),
    ;
}

/// What a watcher sees has happened: it is a change of the feed, under the prefix and
/// no older than what was retained. `feed` is what any other watcher, or the backend,
/// knows of the feed.
pub proof fn law_seen_change_has_happened(
    before: WatcherView,
    after: WatcherView,
    more: Seq<WatchEventView>,
    feed: Seq<WatchEventView>,
    event: WatchEventView,
)
    requires
        after.saw_more(before, more),
        one_log(after.feed, feed),
        after.seen.contains(event),
    ensures
        is_event_under(after.prefix, event),
        exists|i: int|
            after.retained <= i < longer(after.feed, feed).len() && #[trigger] longer(
                after.feed,
                feed,
            )[i] == event,
{
    let changes = after.changes();
    let places = choose|places: Seq<int>| places_in_order(after.seen, changes, places);
    let k = choose|k: int| 0 <= k < after.seen.len() && after.seen[k] == event;
    assert(changes[places[k]] == event);
    lemma_one_log(after.feed, feed);
    let retained = after.feed.skip(after.retained as int);
    let is_wanted = |e: WatchEventView| is_event_under(after.prefix, e);
    lemma_filtered(retained, is_wanted, event);
    let i = choose|i: int| 0 <= i < retained.len() && retained[i] == event;
    assert(after.feed[i + after.retained] == event);
    assert(longer(after.feed, feed)[i + after.retained] == event);
}

/// Changes are seen in the order in which they happened: of two that were seen,
/// the one seen first happened first.
pub proof fn law_changes_are_seen_in_order(
    seen: Seq<WatchEventView>,
    changes: Seq<WatchEventView>,
    i: int,
    j: int,
)
    requires
        seen_in_order(seen, changes),
        0 <= i < j < seen.len(),
    ensures
        exists|p: int, q: int|
            0 <= p < q < changes.len() && #[trigger] changes[p] == seen[i] && #[trigger] changes[q]
                == seen[j],
{
    let places = choose|places: Seq<int>| places_in_order(seen, changes, places);
    assert(places[i] < places[j]);
    assert(changes[places[i]] == seen[i]);
    assert(changes[places[j]] == seen[j]);
}

/// What is said of an event is all that there is to say of it.
pub proof fn law_event_view_leaves_nothing_out(event: WatchEvent)
    ensures
        event@.key == event.key@,
        event@.kind == event.kind,
        event@.value is None == event.value is None,
        event.value matches Some(bytes) ==> event@.value == Some(contents(bytes)),
{
}

} // verus!
