//! Retained message store: the latest retained message of each topic.

use vstd::prelude::*;

use std::time::{Duration, Instant};

use crate::clock::{duration_as_nanos, duration_nanos, elapsed, elapsed_nanos, instant_now};
use crate::codec::types::QoS;
use crate::router::registry::key_index;
use crate::strings::{decimal, push_decimal, str_equal};
use crate::topic_matcher::trie::capped_usize;
use crate::topic_matcher::validation::{filter_matches, matches_filter};

verus! {

/// A retained message stored in the broker.
#[derive(Debug, Clone)]
pub struct RetainedMessage {
    /// The topic this message is retained on.
    pub topic: String,
    /// The message payload (an empty payload means delete).
    pub payload: Vec<u8>,
    /// The QoS level of the retained message.
    pub qos: QoS,
    /// When this message was retained.
    pub timestamp: Instant,
}

/// A retained message, as plain values: topic, payload and QoS.
pub open spec fn message_view(m: RetainedMessage) -> (Seq<char>, Seq<u8>, QoS) {
    (m.topic@, m.payload@, m.qos)
}

/// Retained messages, as plain values.
pub open spec fn messages_view(v: Seq<RetainedMessage>) -> Seq<(Seq<char>, Seq<u8>, QoS)> {
    v.map_values(|m: RetainedMessage| message_view(m))
}

impl RetainedMessage {
    /// A retained message, stamped with the current time.
    pub fn new(topic: &str, payload: Vec<u8>, qos: QoS) -> (r: Self)
        ensures
            message_view(r) == (topic@, payload@, qos),
    {
        RetainedMessage { topic: topic.to_string(), payload, qos, timestamp: instant_now() }
    }

    /// Whether this is a delete marker (empty payload).
    pub fn is_delete(&self) -> (r: bool)
        ensures
            r == (self.payload@.len() == 0),
    {
        self.payload.len() == 0
    }

    /// The age of this retained message (it depends on the clock).
    pub fn age(&self) -> Duration {
        elapsed(&self.timestamp)
    }

    /// A copy of this message.
    pub fn copy(&self) -> (r: Self)
        ensures
            message_view(r) == message_view(*self),
    {
        let mut payload: Vec<u8> = Vec::new();
        let mut i: usize = 0;
        while i < self.payload.len()
            invariant
                i <= self.payload@.len(),
                payload@ == self.payload@.take(i as int),
            decreases self.payload@.len() - i,
        {
            payload.push(self.payload[i]);
            assert(payload@ =~= self.payload@.take(i as int + 1));
            i = i + 1;
        }
        assert(payload@ =~= self.payload@);
        RetainedMessage {
            topic: self.topic.clone(),
            payload,
            qos: self.qos,
            timestamp: self.timestamp,
        }
    }
}

/// Errors that can occur when storing retained messages.
#[derive(Debug, Clone, PartialEq, Eq, Structural)]
pub enum RetainError {
    /// Payload too large.
    PayloadTooLarge { size: usize, max: usize },
    /// The store holds its maximum number of messages.
    StoreFull { count: usize, max: usize },
}

/// The message of a retain error.
pub open spec fn retain_error_message(e: RetainError) -> Seq<char> {
    match e {
        RetainError::PayloadTooLarge { size, max } => "Payload too large: "@ + decimal(size as nat)
            + " bytes (max: "@ + decimal(max as nat) + ")"@,
        RetainError::StoreFull { count, max } => "Retain store full: "@ + decimal(count as nat)
            + " messages (max: "@ + decimal(max as nat) + ")"@,
    }
}

impl RetainError {
    /// The error's message.
    pub fn message(&self) -> (r: String)
        ensures
            r@ == retain_error_message(*self),
    {
        match self {
            RetainError::PayloadTooLarge { size, max } => {
                let mut m = "Payload too large: ".to_string();
                push_decimal(&mut m, *size as u64);
                m.append(" bytes (max: ");
                push_decimal(&mut m, *max as u64);
                m.append(")");
                m
            },
            RetainError::StoreFull { count, max } => {
                let mut m = "Retain store full: ".to_string();
                push_decimal(&mut m, *count as u64);
                m.append(" messages (max: ");
                push_decimal(&mut m, *max as u64);
                m.append(")");
                m
            },
        }
    }
}

/// Messages keyed by topic, as (topic, message) pairs for key lookups.
pub open spec fn keyed(v: Seq<(Seq<char>, Seq<u8>, QoS)>) -> Seq<(Seq<char>, (Seq<u8>, QoS))> {
    v.map_values(|m: (Seq<char>, Seq<u8>, QoS)| (m.0, (m.1, m.2)))
}

/// Topics are distinct.
pub open spec fn topics_unique(v: Seq<(Seq<char>, Seq<u8>, QoS)>) -> bool {
    forall|i: int, j: int| 0 <= i < j < v.len() ==> v[i].0 != v[j].0
}

/// The messages whose topic the filter matches, in order.
pub open spec fn matching_messages(v: Seq<(Seq<char>, Seq<u8>, QoS)>, filter: Seq<char>) -> Seq<(Seq<char>, Seq<u8>, QoS)>
    decreases v.len(),
{
    if v.len() == 0 {
        v
    } else if filter_matches(filter, v.last().0) {
        matching_messages(v.drop_last(), filter).push(v.last())
    } else {
        matching_messages(v.drop_last(), filter)
    }
}

/// The sum of the payload lengths.
pub open spec fn payload_total(v: Seq<(Seq<char>, Seq<u8>, QoS)>) -> nat
    decreases v.len(),
{
    if v.len() == 0 {
        0
    } else {
        payload_total(v.drop_last()) + v.last().1.len()
    }
}

/// Every element of `a` is in `b`, in the same order.
pub open spec fn kept_from<T>(a: Seq<T>, b: Seq<T>) -> bool {
    exists|idx: Seq<int>|
        idx.len() == a.len() && (forall|i: int, j: int| 0 <= i < j < idx.len() ==> idx[i] < idx[j])
            && (forall|i: int| 0 <= i < idx.len() ==> 0 <= #[trigger] idx[i] < b.len() && a[i] == b[idx[i]])
}

/// Store for retained messages: one per topic; a retained message with an
/// empty payload deletes the topic's message.
pub struct RetainStore {
    /// The retained messages, one per topic.
    messages: Vec<RetainedMessage>,
    /// Maximum number of retained messages (0 = unlimited).
    max_messages: usize,
    /// Maximum payload size of a retained message (0 = unlimited).
    max_payload_size: usize,
}

impl RetainStore {
    /// The retained messages, as plain values.
    pub closed spec fn messages(&self) -> Seq<(Seq<char>, Seq<u8>, QoS)> {
        messages_view(self.messages@)
    }

    /// The message limit (0 = unlimited).
    pub closed spec fn max_messages(&self) -> usize {
        self.max_messages
    }

    /// The payload size limit (0 = unlimited).
    pub closed spec fn max_payload_size(&self) -> usize {
        self.max_payload_size
    }

    /// One message per topic.
    pub closed spec fn wf(&self) -> bool {
        topics_unique(self.messages())
    }

    /// A store with the default limits: 10,000 messages of up to 256 KiB.
    pub fn new() -> (r: Self)
        ensures
            r.wf(),
            r.messages().len() == 0,
            r.max_messages() == 10000,
            r.max_payload_size() == 262144,
    {
        Self::with_limits(10000, 256 * 1024)
    }

    /// A store with the given limits (0 = unlimited).
    pub fn with_limits(max_messages: usize, max_payload_size: usize) -> (r: Self)
        ensures
            r.wf(),
            r.messages().len() == 0,
            r.max_messages() == max_messages,
            r.max_payload_size() == max_payload_size,
    {
        let r = RetainStore { messages: Vec::new(), max_messages, max_payload_size };
        assert(r.messages() =~= Seq::<(Seq<char>, Seq<u8>, QoS)>::empty());
        r
    }

    /// The index of the message of `topic`.
    fn find(&self, topic: &str) -> (r: Option<usize>)
        ensures
            r matches Some(i) ==> i == key_index(keyed(self.messages()), topic@),
            r is None ==> key_index(keyed(self.messages()), topic@) == -1,
    {
        let ghost k = keyed(self.messages());
        let mut i = self.messages.len();
        while i > 0
            invariant
                i <= self.messages@.len(),
                k == keyed(self.messages()),
                forall|j: int| i <= j < self.messages@.len() ==> #[trigger] k[j].0 != topic@,
            decreases i,
        {
            if str_equal(self.messages[i - 1].topic.as_str(), topic) {
                proof {
                    crate::router::registry::lemma_key_index(k, topic@);
                    assert(k[i - 1].0 == topic@);
                }
                return Some(i - 1);
            }
            i = i - 1;
        }
        proof {
            crate::router::registry::lemma_key_index(k, topic@);
        }
        None
    }
}

/// What storing a retained message gives: the result and the messages after.
pub open spec fn spec_store(
    m: Seq<(Seq<char>, Seq<u8>, QoS)>,
    max_messages: usize,
    max_payload_size: usize,
    topic: Seq<char>,
    payload: Seq<u8>,
    qos: QoS,
) -> (Result<bool, RetainError>, Seq<(Seq<char>, Seq<u8>, QoS)>) {
    let i = key_index(keyed(m), topic);
    if payload.len() == 0 {
        // An empty payload deletes; that stores nothing new
        (Ok(false), if i >= 0 { m.remove(i) } else { m })
    } else if max_payload_size > 0 && payload.len() > max_payload_size {
        (Err(RetainError::PayloadTooLarge { size: payload.len() as usize, max: max_payload_size }), m)
    } else if max_messages > 0 && m.len() >= max_messages && i < 0 {
        (Err(RetainError::StoreFull { count: m.len() as usize, max: max_messages }), m)
    } else if i >= 0 {
        (Ok(false), m.update(i, (topic, payload, qos)))
    } else {
        (Ok(true), m.push((topic, payload, qos)))
    }
}

/// Removing or replacing an entry keeps topics distinct.
proof fn lemma_topics_unique_edit(m: Seq<(Seq<char>, Seq<u8>, QoS)>, i: int, x: (Seq<char>, Seq<u8>, QoS))
    requires
        topics_unique(m),
        0 <= i < m.len(),
        x.0 == m[i].0,
    ensures
        topics_unique(m.remove(i)),
        topics_unique(m.update(i, x)),
{
    assert forall|a: int, b: int| 0 <= a < b < m.remove(i).len() implies m.remove(i)[a].0 != m.remove(i)[b].0 by {
        let a2 = if a < i { a } else { a + 1 };
        let b2 = if b < i { b } else { b + 1 };
        assert(m.remove(i)[a] == m[a2]);
        assert(m.remove(i)[b] == m[b2]);
    }
    assert forall|a: int, b: int| 0 <= a < b < m.update(i, x).len() implies m.update(i, x)[a].0 != m.update(i, x)[b].0 by {
        assert(m.update(i, x)[a].0 == m[a].0);
        assert(m.update(i, x)[b].0 == m[b].0);
    }
}

/// The messages whose age (one per message, in order) is below
/// `max_nanos`, in order.
pub open spec fn younger<X>(m: Seq<X>, ages: Seq<u128>, max_nanos: u128) -> Seq<X>
    decreases m.len(),
{
    if m.len() == 0 {
        m
    } else if ages[m.len() - 1] < max_nanos {
        younger(m.drop_last(), ages, max_nanos).push(m.last())
    } else {
        younger(m.drop_last(), ages, max_nanos)
    }
}

impl RetainStore {
    /// Store or update a retained message; an empty payload deletes the
    /// topic's message. Returns true if a new topic was stored, false if a
    /// message was updated or deleted; refuses a payload over the size limit
    /// and a new topic when the store is full.
    pub fn store(&mut self, topic: &str, payload: Vec<u8>, qos: QoS) -> (r: Result<bool, RetainError>)
        requires
            old(self).wf(),
        ensures
            final(self).wf(),
            (r, final(self).messages()) == spec_store(
                old(self).messages(),
                old(self).max_messages(),
                old(self).max_payload_size(),
                topic@,
                payload@,
                qos,
            ),
            final(self).max_messages() == old(self).max_messages(),
            final(self).max_payload_size() == old(self).max_payload_size(),
    {
        let ghost m = self.messages();
        let ghost k = keyed(m);
        proof {
            crate::router::registry::lemma_key_index(k, topic@);
        }
        let found = self.find(topic);
        // Empty payload = delete
        if payload.len() == 0 {
            match found {
                Some(i) => {
                    self.messages.remove(i);
                    assert(self.messages() =~= m.remove(i as int));
                    proof {
                        lemma_topics_unique_edit(m, i as int, m[i as int]);
                    }
                    return Ok(false);
                },
                None => return Ok(false),
            }
        }
        // Check the payload size
        if self.max_payload_size > 0 && payload.len() > self.max_payload_size {
            return Err(RetainError::PayloadTooLarge { size: payload.len(), max: self.max_payload_size });
        }
        // Check the message count limit
        if self.max_messages > 0 && self.messages.len() >= self.max_messages && found.is_none() {
            return Err(RetainError::StoreFull { count: self.messages.len(), max: self.max_messages });
        }
        let msg = RetainedMessage::new(topic, payload, qos);
        match found {
            Some(i) => {
                self.messages.set(i, msg);
                assert(self.messages() =~= m.update(i as int, (topic@, payload@, qos)));
                proof {
                    lemma_topics_unique_edit(m, i as int, (topic@, payload@, qos));
                }
                Ok(false)
            },
            None => {
                self.messages.push(msg);
                assert(self.messages() =~= m.push((topic@, payload@, qos)));
                assert forall|a: int, b: int| 0 <= a < b < self.messages().len() implies self.messages()[a].0 != self.messages()[b].0 by {
                    if b == m.len() {
                        assert(k[a].0 != topic@);
                    }
                }
                Ok(true)
            },
        }
    }

    /// The retained message of a topic.
    pub fn get(&self, topic: &str) -> (r: Option<RetainedMessage>)
        ensures
            match r {
                Some(x) => key_index(keyed(self.messages()), topic@) >= 0 && message_view(x)
                    == self.messages()[key_index(keyed(self.messages()), topic@)],
                None => key_index(keyed(self.messages()), topic@) < 0,
            },
    {
        match self.find(topic) {
            Some(i) => {
                proof {
                    crate::router::registry::lemma_key_index(keyed(self.messages()), topic@);
                }
                Some(self.messages[i].copy())
            },
            None => None,
        }
    }

    /// All retained messages whose topic matches a topic filter (the
    /// wildcard rules of subscriptions), in store order.
    pub fn get_matching(&self, filter: &str) -> (r: Vec<RetainedMessage>)
        ensures
            messages_view(r@) == matching_messages(self.messages(), filter@),
    {
        let ghost m = self.messages();
        let mut out: Vec<RetainedMessage> = Vec::new();
        let mut i: usize = 0;
        assert(m.take(0) =~= Seq::<(Seq<char>, Seq<u8>, QoS)>::empty());
        while i < self.messages.len()
            invariant
                i <= self.messages@.len(),
                m == self.messages(),
                messages_view(out@) == matching_messages(m.take(i as int), filter@),
            decreases self.messages@.len() - i,
        {
            assert(m.take(i as int + 1).drop_last() =~= m.take(i as int));
            assert(m.take(i as int + 1).last() == message_view(self.messages@[i as int]));
            if matches_filter(self.messages[i].topic.as_str(), filter) {
                let ghost before = out@;
                out.push(self.messages[i].copy());
                assert(messages_view(out@) =~= messages_view(before).push(m[i as int]));
            }
            i = i + 1;
        }
        assert(m.take(m.len() as int) =~= m);
        out
    }

    /// Remove the retained message of a topic, returning it.
    pub fn remove(&mut self, topic: &str) -> (r: Option<RetainedMessage>)
        requires
            old(self).wf(),
        ensures
            final(self).wf(),
            final(self).max_messages() == old(self).max_messages(),
            final(self).max_payload_size() == old(self).max_payload_size(),
            match r {
                Some(x) => key_index(keyed(old(self).messages()), topic@) >= 0 && message_view(x)
                    == old(self).messages()[key_index(keyed(old(self).messages()), topic@)]
                    && final(self).messages() == old(self).messages().remove(
                    key_index(keyed(old(self).messages()), topic@),
                ),
                None => key_index(keyed(old(self).messages()), topic@) < 0 && final(self).messages()
                    == old(self).messages(),
            },
    {
        let ghost m = self.messages();
        proof {
            crate::router::registry::lemma_key_index(keyed(m), topic@);
        }
        match self.find(topic) {
            Some(i) => {
                let msg = self.messages.remove(i);
                assert(self.messages() =~= m.remove(i as int));
                proof {
                    lemma_topics_unique_edit(m, i as int, m[i as int]);
                }
                Some(msg)
            },
            None => None,
        }
    }

    /// Remove all retained messages.
    pub fn clear(&mut self)
        ensures
            final(self).wf(),
            final(self).messages().len() == 0,
            final(self).max_messages() == old(self).max_messages(),
            final(self).max_payload_size() == old(self).max_payload_size(),
    {
        self.messages.clear();
        assert(self.messages() =~= Seq::<(Seq<char>, Seq<u8>, QoS)>::empty());
    }

    /// The number of retained messages.
    pub fn count(&self) -> (r: usize)
        ensures
            r == self.messages().len(),
    {
        self.messages.len()
    }

    /// The total size of all retained payloads, capped at `usize::MAX`.
    pub fn total_payload_size(&self) -> (r: usize)
        ensures
            r == capped_usize(payload_total(self.messages())),
    {
        let ghost m = self.messages();
        let mut total: usize = 0;
        let mut i: usize = 0;
        assert(m.take(0) =~= Seq::<(Seq<char>, Seq<u8>, QoS)>::empty());
        while i < self.messages.len()
            invariant
                i <= self.messages@.len(),
                m == self.messages(),
                total == capped_usize(payload_total(m.take(i as int))),
            decreases self.messages@.len() - i,
        {
            assert(m.take(i as int + 1).drop_last() =~= m.take(i as int));
            total = total.saturating_add(self.messages[i].payload.len());
            i = i + 1;
        }
        assert(m.take(m.len() as int) =~= m);
        total
    }

    /// The topics with retained messages, in store order.
    pub fn topics(&self) -> (r: Vec<String>)
        ensures
            r@.map_values(|t: String| t@) == self.messages().map_values(
                |x: (Seq<char>, Seq<u8>, QoS)| x.0,
            ),
    {
        let mut out: Vec<String> = Vec::new();
        let mut i: usize = 0;
        while i < self.messages.len()
            invariant
                i <= self.messages@.len(),
                out@.map_values(|t: String| t@) == self.messages().take(i as int).map_values(
                    |x: (Seq<char>, Seq<u8>, QoS)| x.0,
                ),
            decreases self.messages@.len() - i,
        {
            let t = self.messages[i].topic.clone();
            assert(t@ == self.messages()[i as int].0);
            let ghost before = out@;
            out.push(t);
            assert(out@.map_values(|t: String| t@) =~= before.map_values(|t: String| t@).push(t@));
            assert(self.messages().take(i as int + 1).map_values(|x: (Seq<char>, Seq<u8>, QoS)| x.0)
                =~= self.messages().take(i as int).map_values(|x: (Seq<char>, Seq<u8>, QoS)| x.0).push(t@));
            assert(out@.map_values(|t: String| t@) =~= self.messages().take(i as int + 1).map_values(
                |x: (Seq<char>, Seq<u8>, QoS)| x.0,
            ));
            i = i + 1;
        }
        assert(self.messages().take(self.messages().len() as int) =~= self.messages());
        out
    }

    /// Keep exactly the messages whose age (`ages_nanos`, one per message,
    /// in order) is below `max_nanos`, in order. Returns how many were
    /// removed.
    pub fn retain_younger(&mut self, ages_nanos: &Vec<u128>, max_nanos: u128) -> (r: usize)
        requires
            old(self).wf(),
            ages_nanos@.len() == old(self).messages().len(),
        ensures
            final(self).wf(),
            final(self).messages() == younger(old(self).messages(), ages_nanos@, max_nanos),
            final(self).messages().len() + r == old(self).messages().len(),
            kept_from(final(self).messages(), old(self).messages()),
            final(self).max_messages() == old(self).max_messages(),
            final(self).max_payload_size() == old(self).max_payload_size(),
    {
        let ghost m = self.messages();
        let before = self.messages.len();
        let mut kept: Vec<RetainedMessage> = Vec::new();
        let mut i: usize = 0;
        let ghost mut idx: Seq<int> = Seq::empty();
        while i < self.messages.len()
            invariant
                i <= self.messages@.len(),
                m == self.messages(),
                before == m.len(),
                ages_nanos@.len() == m.len(),
                kept@.len() <= i,
                idx.len() == kept@.len(),
                messages_view(kept@) == younger(m.take(i as int), ages_nanos@, max_nanos),
                forall|a: int, b: int| 0 <= a < b < idx.len() ==> idx[a] < idx[b],
                forall|a: int| 0 <= a < idx.len() ==> 0 <= #[trigger] idx[a] < i && messages_view(kept@)[a] == m[idx[a]],
            decreases self.messages@.len() - i,
        {
            proof {
                assert(m.take(i as int + 1).drop_last() =~= m.take(i as int));
                assert(m.take(i as int + 1).last() == m[i as int]);
            }
            if ages_nanos[i] < max_nanos {
                let ghost before_kept = kept@;
                kept.push(self.messages[i].copy());
                proof {
                    assert(messages_view(kept@) =~= messages_view(before_kept).push(m[i as int]));
                    idx = idx.push(i as int);
                    assert forall|a: int| 0 <= a < idx.len() implies 0 <= #[trigger] idx[a] < i + 1 && messages_view(kept@)[a] == m[idx[a]] by {
                        if a < idx.len() - 1 {
                            assert(kept@[a] == before_kept[a]);
                        }
                    }
                }
            }
            i = i + 1;
        }
        let removed = before - kept.len();
        self.messages = kept;
        proof {
            assert(m.take(m.len() as int) =~= m);
            assert(kept_from(self.messages(), m)) by {
                assert(forall|a: int| 0 <= a < idx.len() ==> 0 <= #[trigger] idx[a] < m.len() && self.messages()[a] == m[idx[a]]);
            }
            assert forall|a: int, b: int| 0 <= a < b < self.messages().len() implies self.messages()[a].0 != self.messages()[b].0 by {
                assert(m[idx[a]].0 != m[idx[b]].0);
            }
        }
        removed
    }

    /// Remove the retained messages older than `max_age`. Returns how many
    /// were removed. The ages come from the clock: the messages kept are
    /// exactly those younger than `max_age` for some age of each message.
    pub fn expire_older_than(&mut self, max_age: Duration) -> (r: usize)
        requires
            old(self).wf(),
        ensures
            final(self).wf(),
            exists|ages: Seq<u128>|
                ages.len() == old(self).messages().len() && final(self).messages() == #[trigger] younger(
                    old(self).messages(),
                    ages,
                    duration_as_nanos(max_age),
                ),
            final(self).messages().len() + r == old(self).messages().len(),
            kept_from(final(self).messages(), old(self).messages()),
            final(self).max_messages() == old(self).max_messages(),
            final(self).max_payload_size() == old(self).max_payload_size(),
    {
        let mut ages: Vec<u128> = Vec::new();
        let mut i: usize = 0;
        while i < self.messages.len()
            invariant
                i <= self.messages@.len(),
                ages@.len() == i,
            decreases self.messages@.len() - i,
        {
            ages.push(elapsed_nanos(&self.messages[i].timestamp));
            i = i + 1;
        }
        let max_nanos = duration_nanos(&max_age);
        self.retain_younger(&ages, max_nanos)
    }
}

impl Default for RetainStore {
    fn default() -> (r: Self)
        ensures
            r.wf(),
            r.messages().len() == 0,
            r.max_messages() == 10000,
            r.max_payload_size() == 262144,
    {
        RetainStore::new()
    }
}

/// After storing a non-empty retained message, reading the topic gives that
/// message.
pub proof fn lemma_store_then_get(
    m: Seq<(Seq<char>, Seq<u8>, QoS)>,
    max_messages: usize,
    max_payload_size: usize,
    topic: Seq<char>,
    payload: Seq<u8>,
    qos: QoS,
)
    requires
        topics_unique(m),
        payload.len() > 0,
        spec_store(m, max_messages, max_payload_size, topic, payload, qos).0 is Ok,
    ensures
        ({
            let m2 = spec_store(m, max_messages, max_payload_size, topic, payload, qos).1;
            key_index(keyed(m2), topic) >= 0 && m2[key_index(keyed(m2), topic)] == (topic, payload, qos)
        }),
{
    let m2 = spec_store(m, max_messages, max_payload_size, topic, payload, qos).1;
    crate::router::registry::lemma_key_index(keyed(m), topic);
    crate::router::registry::lemma_key_index(keyed(m2), topic);
    let i = key_index(keyed(m), topic);
    let j = key_index(keyed(m2), topic);
    if i >= 0 {
        assert(keyed(m2)[i].0 == topic);
        if j != i {
            assert(keyed(m2)[j].0 == topic);
            assert(m2[j].0 == m[j].0);
            assert(m[j].0 != m[i].0);
        }
    } else {
        assert(keyed(m2)[m.len() as int].0 == topic);
    }
}

/// After storing an empty payload, the topic has no retained message.
pub proof fn lemma_empty_payload_deletes(
    m: Seq<(Seq<char>, Seq<u8>, QoS)>,
    max_messages: usize,
    max_payload_size: usize,
    topic: Seq<char>,
    qos: QoS,
)
    requires
        topics_unique(m),
    ensures
        key_index(keyed(spec_store(m, max_messages, max_payload_size, topic, Seq::empty(), qos).1), topic) < 0,
{
    let m2 = spec_store(m, max_messages, max_payload_size, topic, Seq::empty(), qos).1;
    crate::router::registry::lemma_key_index(keyed(m), topic);
    crate::router::registry::lemma_key_index(keyed(m2), topic);
    let i = key_index(keyed(m), topic);
    let j = key_index(keyed(m2), topic);
    if j >= 0 {
        let j2 = if j < i { j } else { j + 1 };
        assert(m2[j] == m[j2]);
        assert(keyed(m)[j2].0 == topic);
    }
}

/// Storing a retained message for one topic leaves every other topic's
/// retained message as it was: an entry of another topic is in the store
/// after the call exactly when it was before. On success the topic itself
/// ends with the new message, or with none when the payload is empty; a
/// refused store changes nothing. Topics stay distinct.
pub proof fn lemma_store_keeps_other_topics(
    m: Seq<(Seq<char>, Seq<u8>, QoS)>,
    max_messages: usize,
    max_payload_size: usize,
    topic: Seq<char>,
    payload: Seq<u8>,
    qos: QoS,
)
    requires
        topics_unique(m),
    ensures
        ({
            let (r, m2) = spec_store(m, max_messages, max_payload_size, topic, payload, qos);
            &&& topics_unique(m2)
            &&& forall|x: (Seq<char>, Seq<u8>, QoS)| x.0 != topic ==> (m2.contains(x) <==> m.contains(x))
            &&& r is Err ==> m2 == m
            &&& r is Ok ==> forall|x: (Seq<char>, Seq<u8>, QoS)|
                x.0 == topic ==> (m2.contains(x) <==> (payload.len() > 0 && x == (topic, payload, qos)))
        }),
{
    let (r, m2) = spec_store(m, max_messages, max_payload_size, topic, payload, qos);
    crate::router::registry::lemma_key_index(keyed(m), topic);
    let i = key_index(keyed(m), topic);
    assert forall|j: int| 0 <= j < m.len() && j != i implies #[trigger] m[j].0 != topic by {
        assert(keyed(m)[j].0 == m[j].0);
        if i >= 0 {
            assert(keyed(m)[i].0 == m[i].0);
        }
    }
    if i >= 0 {
        assert(keyed(m)[i].0 == m[i].0);
        lemma_topics_unique_edit(m, i, m[i]);
        lemma_topics_unique_edit(m, i, (topic, payload, qos));
    }
    if payload.len() == 0 {
        if i >= 0 {
            assert forall|x: (Seq<char>, Seq<u8>, QoS)| x.0 != topic implies (m2.contains(x) <==> m.contains(x)) by {
                if m.contains(x) {
                    let j = choose|j: int| 0 <= j < m.len() && m[j] == x;
                    let k = if j < i { j } else { j - 1 };
                    assert(m2[k] == x);
                }
                if m2.contains(x) {
                    let k = choose|k: int| 0 <= k < m2.len() && m2[k] == x;
                    let j = if k < i { k } else { k + 1 };
                    assert(m[j] == x);
                }
            }
            assert forall|x: (Seq<char>, Seq<u8>, QoS)| x.0 == topic implies !m2.contains(x) by {
                if m2.contains(x) {
                    let k = choose|k: int| 0 <= k < m2.len() && m2[k] == x;
                    let j = if k < i { k } else { k + 1 };
                    assert(m[j] == x);
                }
            }
        } else {
            assert forall|x: (Seq<char>, Seq<u8>, QoS)| x.0 == topic implies !m2.contains(x) by {
                if m2.contains(x) {
                    let k = choose|k: int| 0 <= k < m2.len() && m2[k] == x;
                    assert(m[k] == x);
                }
            }
        }
    } else if r is Ok {
        if i >= 0 {
            assert forall|x: (Seq<char>, Seq<u8>, QoS)| x.0 != topic implies (m2.contains(x) <==> m.contains(x)) by {
                if m.contains(x) {
                    let j = choose|j: int| 0 <= j < m.len() && m[j] == x;
                    assert(m2[j] == x);
                }
                if m2.contains(x) {
                    let k = choose|k: int| 0 <= k < m2.len() && m2[k] == x;
                    assert(m[k] == x);
                }
            }
            assert forall|x: (Seq<char>, Seq<u8>, QoS)| x.0 == topic implies (m2.contains(x) <==> x == (topic, payload, qos)) by {
                if m2.contains(x) {
                    let k = choose|k: int| 0 <= k < m2.len() && m2[k] == x;
                    if k != i {
                        assert(m[k] == x);
                    }
                }
                if x == (topic, payload, qos) {
                    assert(m2[i] == x);
                }
            }
        } else {
            assert forall|x: (Seq<char>, Seq<u8>, QoS)| x.0 != topic implies (m2.contains(x) <==> m.contains(x)) by {
                if m.contains(x) {
                    let j = choose|j: int| 0 <= j < m.len() && m[j] == x;
                    assert(m2[j] == x);
                }
                if m2.contains(x) {
                    let k = choose|k: int| 0 <= k < m2.len() && m2[k] == x;
                    assert(m[k] == x);
                }
            }
            assert forall|x: (Seq<char>, Seq<u8>, QoS)| x.0 == topic implies (m2.contains(x) <==> x == (topic, payload, qos)) by {
                if m2.contains(x) {
                    let k = choose|k: int| 0 <= k < m2.len() && m2[k] == x;
                    if k < m.len() {
                        assert(m[k] == x);
                    }
                }
                if x == (topic, payload, qos) {
                    assert(m2[m.len() as int] == x);
                }
            }
            assert forall|a: int, b: int| 0 <= a < b < m2.len() implies m2[a].0 != m2[b].0 by {
                if b == m.len() {
                    assert(m2[a] == m[a]);
                }
            }
        }
    }
}

} // verus!
