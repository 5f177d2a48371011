//! Transient messaging by topic: fire and forget, at most once, no replay.
//!
//! Used for cluster-wide signals. [`crate::watch`] is the durable counterpart.

use bytes::Bytes;
use vstd::prelude::*;

use crate::error::ClusterError;
use crate::log::{lemma_filtered, lemma_one_log, longer, one_log};
use crate::payload::contents;

verus! {

/// One message on a topic.
#[derive(Debug)]
pub struct Message {
    pub topic: String,
    pub payload: Bytes,
}

/// What a [`Message`] says.
pub ghost struct MessageView {
    pub topic: Seq<char>,
    pub payload: Seq<u8>,
}

impl View for Message {
    type V = MessageView;

    open spec fn view(&self) -> MessageView {
        MessageView { topic: self.topic@, payload: contents(self.payload) }
    }
}

impl Clone for Message {
    fn clone(&self) -> (r: Self)
        ensures
            r@ == self@,
    {
        Message { topic: self.topic.clone(), payload: self.payload.clone() }
    }
}

/// Whether each of the messages `received` is one of those `sent`, none of them
/// received more often than it was sent. The order is free, and messages may be
/// missing.
pub open spec fn at_most_once(received: Seq<MessageView>, sent: Seq<MessageView>) -> bool {
    received.to_multiset().subset_of(sent.to_multiset())
}

/// The tokens of a topic or a pattern, which dots separate.
pub open spec fn tokens(text: Seq<char>) -> Seq<Seq<char>>
    decreases text.len(),
{
    if text.len() == 0 {
        seq![seq![]]
    } else {
        let before = tokens(text.drop_last());
        if text.last() == '.' {
            before.push(seq![])
        } else {
            before.drop_last().push(before.last().push(text.last()))
        }
    }
}

/// Whether the tokens of a topic are as those of a pattern: `*` stands for any one
/// token, and `>` in the last place for one or more.
pub open spec fn tokens_match(pattern: Seq<Seq<char>>, topic: Seq<Seq<char>>) -> bool
    decreases pattern.len(),
{
    if pattern.len() == 0 {
        topic.len() == 0
    } else if pattern.len() == 1 && pattern[0] == seq!['>'] {
        topic.len() > 0
    } else {
        &&& topic.len() > 0
        &&& pattern[0] == seq!['*'] || pattern[0] == topic[0]
        &&& tokens_match(pattern.drop_first(), topic.drop_first())
    }
}

/// Whether a topic is one that a pattern stands for.
pub open spec fn is_under(pattern: Seq<char>, topic: Seq<char>) -> bool {
    tokens_match(tokens(pattern), tokens(topic))
}

/// What a subscription stands in with the bus.
pub ghost struct SubscriptionView {
    /// The pattern that was subscribed to.
    pub pattern: Seq<char>,
    /// What the bus has accepted, from whichever publisher, as far as it has come to
    /// the subscription.
    pub bus: Seq<MessageView>,
    /// How much the bus had accepted when the subscription was made.
    pub since: nat,
    /// What the subscriber has received.
    pub received: Seq<MessageView>,
}

impl SubscriptionView {
    /// What was sent to the subscription: what the bus has accepted since, on the
    /// topics of the pattern.
    pub open spec fn sent(self) -> Seq<MessageView> {
        self.bus.skip(self.since as int).filter(
            |message: MessageView| is_under(self.pattern, message.topic),
        )
    }

    /// Whether the subscription is as made on a bus that has accepted `accepted`.
    pub open spec fn is_new(self, pattern: Seq<char>, accepted: Seq<MessageView>) -> bool {
        &&& self.pattern == pattern
        &&& self.bus == accepted
        &&& self.since == accepted.len()
        &&& self.received.len() == 0
    }

    /// Whether this is the subscription after `before`, once `more` has been
    /// received.
    pub open spec fn received_more(self, before: SubscriptionView, more: Seq<MessageView>) -> bool {
        &&& self.pattern == before.pattern
        &&& self.since == before.since
        &&& self.since <= self.bus.len()
        &&& before.bus.is_prefix_of(self.bus)
        &&& self.received == before.received + more
        &&& at_most_once(self.received, self.sent())
    }
}

/// The messages that an answer of a stream brings.
pub open spec fn brought(r: Option<Result<Message, ClusterError>>) -> Seq<MessageView> {
    match r {
        Some(Ok(message)) => seq![message@],
        _ => seq![],
    }
}

/// The messages of a subscription, as they come.
pub trait MessageStream: Sized {
    /// What the subscription stands in with the bus.
    open spec fn subscription(&self) -> SubscriptionView {
        arbitrary()
    }

    /// The next message; `None` once the stream has ended.
    fn next(&mut self) -> (r: Option<Result<Message, ClusterError>>)
        ensures
            final(self).subscription().received_more(old(self).subscription(), brought(r)),
    ;
}

/// Messaging by topic. Delivery is best effort.
pub trait PubSub: Sized {
    type Subscription: MessageStream;

    /// What the bus has accepted, from whichever publisher.
    open spec fn accepted(&self) -> Seq<MessageView> {
        arbitrary()
    }

    /// Publishes `payload` on `topic`. Returns once the bus has accepted the
    /// message, and does not wait for a subscriber.
    fn publish(&mut self, topic: &str, payload: Bytes) -> (r: Result<(), ClusterError>)
        ensures
            old(self).accepted().is_prefix_of(final(self).accepted()),
            r is Ok ==> final(self).accepted().len() > old(self).accepted().len()
                && final(self).accepted().last() == (MessageView {
                topic: topic@,
                payload: contents(payload),
            }),
    ;

    /// Subscribes to a topic, or to a pattern where `*` stands for one token and
    /// `>` for the rest. Members of one `queue_group` share the messages where
    /// the backend supports it. Nothing sent before is delivered.
    fn subscribe(&mut self, pattern: &str, queue_group: Option<&str>) -> (r: Result<
        Self::Subscription,
        ClusterError,
    >)
        ensures
            old(self).accepted().is_prefix_of(final(self).accepted()),
            r matches Ok(stream) ==> stream.subscription().is_new(
                pattern@,
                final(self).accepted(),
            ),
    ;
}

/// No message is delivered more often than it was sent since the subscription was
/// made, so none is repeated and none is replayed.
pub proof fn law_delivery_is_at_most_once(
    received: Seq<MessageView>,
    sent: Seq<MessageView>,
    message: MessageView,
)
    requires
        at_most_once(received, sent),
    ensures
        received.to_multiset().count(message) <= sent.to_multiset().count(message),
        received.contains(message) ==> sent.contains(message),
{
    broadcast use vstd::seq_lib::group_to_multiset_ensures;

    if received.contains(message) {
        assert(received.to_multiset().count(message) > 0);
    }
}

/// What a subscriber receives was published: the bus accepted the message after the
/// subscription was made, on a topic of its pattern. `accepted` is what any client
/// of the bus knows of it.
pub proof fn law_delivered_message_was_published(
    before: SubscriptionView,
    after: SubscriptionView,
    more: Seq<MessageView>,
    accepted: Seq<MessageView>,
    message: MessageView,
)
    requires
        after.received_more(before, more),
        one_log(after.bus, accepted),
        after.received.contains(message),
    ensures
        is_under(after.pattern, message.topic),
        exists|i: int|
            after.since <= i < longer(after.bus, accepted).len() && #[trigger] longer(
                after.bus,
                accepted,
            )[i] == message,
{
    law_delivery_is_at_most_once(after.received, after.sent(), message);
    lemma_one_log(after.bus, accepted);
    let later = after.bus.skip(after.since as int);
    let is_wanted = |m: MessageView| is_under(after.pattern, m.topic);
    lemma_filtered(later, is_wanted, message);
    let k = choose|k: int| 0 <= k < later.len() && later[k] == message;
    assert(after.bus[k + after.since] == message);
    assert(longer(after.bus, accepted)[k + after.since] == message);
}

/// A pattern without `*` and `>` stands for the one topic that it is.
pub proof fn law_plain_pattern_is_its_topic(pattern: Seq<char>, topic: Seq<char>)
    requires
        !pattern.contains('*'),
        !pattern.contains('>'),
    ensures
        is_under(pattern, topic) == (topic == pattern),
{
    lemma_plain_tokens(pattern);
    lemma_plain_tokens_match(tokens(pattern), tokens(topic));
    if tokens(pattern) == tokens(topic) {
        lemma_tokens_tell_text(pattern, topic);
    }
}

/// The tokens of a text without wildcards are no wildcards.
proof fn lemma_plain_tokens(text: Seq<char>)
    requires
        !text.contains('*'),
        !text.contains('>'),
    ensures
        tokens(text).len() > 0,
        forall|i: int|
            #![trigger tokens(text)[i]]
            0 <= i < tokens(text).len() ==> !tokens(text)[i].contains('*') && !tokens(
                text,
            )[i].contains('>'),
    decreases text.len(),
{
    if text.len() > 0 {
        let shorter = text.drop_last();
        assert forall|c: char| shorter.contains(c) implies text.contains(c) by {
            let i = choose|i: int| 0 <= i < shorter.len() && shorter[i] == c;
            assert(text[i] == c);
        }
        lemma_plain_tokens(shorter);
        assert(text[text.len() - 1] == text.last());
        assert(text.contains(text.last()));
        let before = tokens(shorter);
        let longer_token = before.last().push(text.last());
        assert(before.last() == before[before.len() - 1]);
        assert forall|c: char| #[trigger] longer_token.contains(c) implies before.last().contains(c)
            || c == text.last() by {
            let i = choose|i: int| 0 <= i < longer_token.len() && longer_token[i] == c;
            if i < before.last().len() {
                assert(before.last()[i] == c);
            }
        }
    }
}

proof fn lemma_plain_tokens_match(pattern: Seq<Seq<char>>, topic: Seq<Seq<char>>)
    requires
        forall|i: int|
            #![trigger pattern[i]]
            0 <= i < pattern.len() ==> !pattern[i].contains('*') && !pattern[i].contains('>'),
    ensures
        tokens_match(pattern, topic) == (pattern == topic),
    decreases pattern.len(),
{
    assert(seq!['*'].contains('*')) by {
        assert(seq!['*'][0] == '*');
    }
    assert(seq!['>'].contains('>')) by {
        assert(seq!['>'][0] == '>');
    }
    if pattern.len() == 0 {
        assert(topic.len() == 0 ==> topic =~= pattern);
    } else {
        assert(!pattern[0].contains('*') && !pattern[0].contains('>'));
        if topic.len() > 0 {
            let rest = pattern.drop_first();
            assert forall|i: int| #![trigger rest[i]] 0 <= i < rest.len() implies !rest[i].contains(
                '*',
            ) && !rest[i].contains('>') by {
                assert(rest[i] == pattern[i + 1]);
            }
            lemma_plain_tokens_match(rest, topic.drop_first());
            assert(pattern =~= seq![pattern[0]] + rest);
            assert(topic =~= seq![topic[0]] + topic.drop_first());
        }
    }
}

/// A text is told by its tokens.
proof fn lemma_tokens_tell_text(a: Seq<char>, b: Seq<char>)
    requires
        tokens(a) == tokens(b),
    ensures
        a == b,
    decreases a.len() + b.len(),
{
    lemma_token_count(a);
    lemma_token_count(b);
    if a.len() == 0 && b.len() == 0 {
        assert(a =~= b);
    } else if a.len() == 0 {
        lemma_token_count(b.drop_last());
        assert(tokens(a).len() == 1 && tokens(a)[0].len() == 0);
        assert(false);
    } else if b.len() == 0 {
        lemma_token_count(a.drop_last());
        assert(tokens(b).len() == 1 && tokens(b)[0].len() == 0);
        assert(false);
    } else {
        let x = tokens(a.drop_last());
        let y = tokens(b.drop_last());
        lemma_token_count(a.drop_last());
        lemma_token_count(b.drop_last());
        let t = tokens(a);
        if t.last().len() == 0 {
            assert(a.last() == '.');
            assert(b.last() == '.');
            assert(x =~= t.drop_last());
            assert(y =~= t.drop_last());
        } else {
            assert(a.last() != '.');
            assert(b.last() != '.');
            assert(t.last().last() == a.last());
            assert(t.last().last() == b.last());
            assert(x.last() =~= t.last().drop_last());
            assert(y.last() =~= t.last().drop_last());
            assert(x.drop_last() =~= t.drop_last());
            assert(y.drop_last() =~= t.drop_last());
            assert(x =~= x.drop_last().push(x.last()));
            assert(y =~= y.drop_last().push(y.last()));
        }
        lemma_tokens_tell_text(a.drop_last(), b.drop_last());
        assert(a =~= a.drop_last().push(a.last()));
        assert(b =~= b.drop_last().push(b.last()));
    }
}

/// Every text has a token.
proof fn lemma_token_count(text: Seq<char>)
    ensures
        tokens(text).len() > 0,
    decreases text.len(),
{
    if text.len() > 0 {
        lemma_token_count(text.drop_last());
    }
}

/// What is said of a message is all that there is to say of it.
pub proof fn law_message_says_topic_and_payload(message: Message)
    ensures
        message@.topic == message.topic@,
        message@.payload == contents(message.payload),
{
}

} // verus!
