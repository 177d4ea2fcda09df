//! MQTT session state: subscriptions, in-flight QoS flows and the offline
//! queue; kept across connections when clean_session is false.

use vstd::prelude::*;

use std::collections::VecDeque;
use std::time::{Duration, Instant};

use bytes::Bytes;

use crate::clock::{
    duration_as_nanos, duration_from_secs, duration_nanos, duration_of_secs, elapsed, elapsed_nanos, instant_now,
};
use crate::codec::types::QoS;
use crate::router::registry::{
    entries_view, find_entry, key_index, keys_unique, lemma_key_index, lemma_remove_keeps_unique,
};
use crate::session::packet_id::{allocation, PacketIdAllocator};
use crate::session::qos::{
    PendingPublish, QoS1State, QoS2InboundState, QoS2OutboundState, QoSConfig, QoSError,
};
use crate::strings::str_equal;
use crate::topic_matcher::trie::capped_usize;

verus! {

/// Session configuration.
#[derive(Debug, Clone)]
pub struct SessionConfig {
    /// Maximum messages to queue for an offline client.
    pub max_offline_messages: usize,
    /// Maximum in-flight QoS 1/2 messages.
    pub max_inflight: usize,
    /// Session expiry interval (`None`: never, for persistent sessions).
    pub session_expiry: Option<Duration>,
    /// QoS retry configuration.
    pub qos_config: QoSConfig,
}

impl Default for SessionConfig {
    fn default() -> (r: Self)
        ensures
            r.max_offline_messages == 1000,
            r.max_inflight == 65535,
            r.session_expiry == Some(duration_of_secs(86400)),
            expiry_nanos_of(r) == Some(86_400_000_000_000u128),
            r.qos_config.retry_interval == duration_of_secs(5),
            r.qos_config.max_retries == 5,
            r.qos_config.exponential_backoff,
    {
        SessionConfig {
            max_offline_messages: 1000,
            max_inflight: 65535,
            // 24 hours
            session_expiry: Some(duration_from_secs(24 * 60 * 60)),
            qos_config: QoSConfig::default(),
        }
    }
}

/// A message queued for offline delivery.
#[derive(Debug, Clone)]
pub struct QueuedMessage {
    pub topic: String,
    pub payload: Bytes,
    pub qos: QoS,
    pub retain: bool,
    pub queued_at: Instant,
}

/// Session statistics.
#[derive(Debug, Clone)]
pub struct SessionStats {
    pub subscription_count: usize,
    pub qos1_inflight: usize,
    pub qos2_outbound_inflight: usize,
    pub qos2_inbound_inflight: usize,
    pub offline_queue_size: usize,
    pub age: Duration,
    pub idle_time: Duration,
}

/// A configuration's session expiry interval in nanoseconds, if any.
pub open spec fn expiry_nanos_of(c: SessionConfig) -> Option<u128> {
    match c.session_expiry {
        Some(d) => Some(duration_as_nanos(d)),
        None => None,
    }
}

/// Whether a session idle for `elapsed_nanos` has expired: only with an
/// expiry interval, once more than that has passed.
pub open spec fn expired_after(expiry_nanos: Option<u128>, elapsed_nanos: u128) -> bool {
    match expiry_nanos {
        Some(e) => elapsed_nanos > e,
        None => false,
    }
}

/// Whether a session idle for `elapsed_nanos` has expired: only with an
/// expiry interval, once more than that has passed.
pub fn session_expired(expiry_nanos: Option<u128>, elapsed_nanos: u128) -> (r: bool)
    ensures
        r == expired_after(expiry_nanos, elapsed_nanos),
{
    match expiry_nanos {
        Some(e) => elapsed_nanos > e,
        None => false,
    }
}

/// The index of the last entry with identifier `id`, or -1.
pub open spec fn id_index<X>(s: Seq<(u16, X)>, id: u16) -> int
    decreases s.len(),
{
    if s.len() == 0 {
        -1
    } else if s.last().0 == id {
        s.len() - 1
    } else {
        id_index(s.drop_last(), id)
    }
}

/// What `id_index` gives: an entry with the identifier, or -1 when none.
pub proof fn lemma_id_index<X>(s: Seq<(u16, X)>, id: u16)
    ensures
        -1 <= id_index(s, id) < s.len(),
        id_index(s, id) >= 0 ==> s[id_index(s, id)].0 == id,
        id_index(s, id) < 0 ==> forall|i: int| 0 <= i < s.len() ==> #[trigger] s[i].0 != id,
        forall|i: int| id_index(s, id) < i < s.len() ==> #[trigger] s[i].0 != id,
    decreases s.len(),
{
    if s.len() > 0 {
        lemma_id_index(s.drop_last(), id);
        assert forall|i: int| 0 <= i < s.len() - 1 implies #[trigger] s[i] == s.drop_last()[i] by {}
    }
}

/// Identifiers are distinct.
pub open spec fn ids_unique<X>(s: Seq<(u16, X)>) -> bool {
    forall|i: int, j: int| 0 <= i < j < s.len() ==> s[i].0 != s[j].0
}

/// The index of the entry with identifier `id`.
pub(crate) fn find_id<X>(v: &Vec<(u16, X)>, id: u16) -> (r: Option<usize>)
    ensures
        r matches Some(i) ==> i == id_index(v@, id),
        r is None ==> id_index(v@, id) == -1,
{
    let mut i = v.len();
    while i > 0
        invariant
            i <= v@.len(),
            forall|j: int| i <= j < v@.len() ==> #[trigger] v@[j].0 != id,
        decreases i,
    {
        if v[i - 1].0 == id {
            proof {
                lemma_id_index(v@, id);
            }
            return Some(i - 1);
        }
        i = i - 1;
    }
    proof {
        lemma_id_index(v@, id);
    }
    None
}

/// Removing an entry, or changing one without changing its identifier,
/// keeps identifiers distinct.
pub(crate) proof fn lemma_ids_unique_edit<X>(s: Seq<(u16, X)>, i: int, x: (u16, X))
    requires
        ids_unique(s),
        0 <= i < s.len(),
        x.0 == s[i].0,
    ensures
        ids_unique(s.remove(i)),
        ids_unique(s.update(i, x)),
{
    assert forall|a: int, b: int| 0 <= a < b < s.remove(i).len() implies s.remove(i)[a].0 != s.remove(i)[b].0 by {
        let a2 = if a < i { a } else { a + 1 };
        let b2 = if b < i { b } else { b + 1 };
        assert(s.remove(i)[a] == s[a2]);
        assert(s.remove(i)[b] == s[b2]);
    }
    assert forall|a: int, b: int| 0 <= a < b < s.update(i, x).len() implies s.update(i, x)[a].0 != s.update(i, x)[b].0 by {
        assert(s.update(i, x)[a].0 == s[a].0);
        assert(s.update(i, x)[b].0 == s[b].0);
    }
}

/// Appending an entry with a new identifier keeps identifiers distinct.
pub(crate) proof fn lemma_ids_unique_push<X>(s: Seq<(u16, X)>, x: (u16, X))
    requires
        ids_unique(s),
        id_index(s, x.0) == -1,
    ensures
        ids_unique(s.push(x)),
{
    lemma_id_index(s, x.0);
    assert forall|a: int, b: int| 0 <= a < b < s.push(x).len() implies s.push(x)[a].0 != s.push(x)[b].0 by {
        if b == s.len() {
            assert(s[a].0 != x.0);
        }
    }
}

/// There are at most 65536 entries with distinct `u16` identifiers.
proof fn lemma_ids_bound<X>(s: Seq<(u16, X)>)
    requires
        ids_unique(s),
    ensures
        s.len() <= 65536,
{
    let ids: Seq<int> = s.map_values(|e: (u16, X)| e.0 as int);
    assert(ids.no_duplicates()) by {
        assert forall|i: int, j: int| 0 <= i < ids.len() && 0 <= j < ids.len() && i != j implies ids[i]
            != ids[j] by {
            if i < j {
                assert(s[i].0 != s[j].0);
            } else {
                assert(s[j].0 != s[i].0);
            }
        }
    }
    ids.unique_seq_to_set();
    vstd::set_lib::lemma_int_range(0, 65536);
    assert(ids.to_set().subset_of(vstd::set_lib::set_int_range(0, 65536))) by {
        assert forall|x: int| ids.to_set().contains(x) implies vstd::set_lib::set_int_range(0, 65536).contains(x) by {
            let i = choose|i: int| 0 <= i < ids.len() && ids[i] == x;
            assert(0 <= s[i].0 < 65536);
        }
    }
    vstd::set_lib::lemma_len_subset(ids.to_set(), vstd::set_lib::set_int_range(0, 65536));
}

/// The identifiers of the entries of `s` whose position is marked in `due`,
/// in order.
pub open spec fn selected_ids<X>(s: Seq<(u16, X)>, due: Seq<bool>) -> Seq<u16>
    decreases s.len(),
{
    if s.len() == 0 {
        Seq::empty()
    } else {
        let rest = selected_ids(s.drop_last(), due);
        if due[s.len() - 1] {
            rest.push(s.last().0)
        } else {
            rest
        }
    }
}

/// `selected_ids` reads only the marks of the positions of `s`.
proof fn lemma_selected_ids_marks<X>(s: Seq<(u16, X)>, d1: Seq<bool>, d2: Seq<bool>)
    requires
        forall|j: int| 0 <= j < s.len() ==> d1[j] == d2[j],
    ensures
        selected_ids(s, d1) == selected_ids(s, d2),
    decreases s.len(),
{
    if s.len() > 0 {
        lemma_selected_ids_marks(s.drop_last(), d1, d2);
    }
}

/// One more step of a selection over the first `i` entries.
proof fn lemma_selected_ids_step<X>(s: Seq<(u16, X)>, due: Seq<bool>, i: int, b: bool)
    requires
        0 <= i < s.len(),
        due.len() == i,
    ensures
        selected_ids(s.take(i + 1), due.push(b)) == if b {
            selected_ids(s.take(i), due).push(s[i].0)
        } else {
            selected_ids(s.take(i), due)
        },
{
    assert(s.take(i + 1).drop_last() =~= s.take(i));
    lemma_selected_ids_marks(s.take(i), due, due.push(b));
}

/// A QoS 1 flow that may be due for a retry: still awaiting its PUBACK, with
/// attempts left.
pub open spec fn qos1_may_retry(st: QoS1State, max_retries: u32) -> bool {
    st matches QoS1State::AwaitingPubAck(p) && p.attempts < max_retries
}

/// A QoS 2 outbound flow whose PUBLISH may be due for a retry: still
/// awaiting PUBREC, with attempts left.
pub open spec fn qos2_publish_may_retry(st: QoS2OutboundState, max_retries: u32) -> bool {
    st matches QoS2OutboundState::AwaitingPubRec(p) && p.attempts < max_retries
}

/// A QoS 2 outbound flow whose PUBREL may be due for a retry: awaiting
/// PUBCOMP, with attempts left.
pub open spec fn qos2_pubrel_may_retry(st: QoS2OutboundState, max_retries: u32) -> bool {
    st matches QoS2OutboundState::AwaitingPubComp { attempts, .. } && attempts < max_retries
}

/// `q` is `p` sent once more: one more attempt, all else but the time of
/// the last sending unchanged.
pub open spec fn retried_once(p: PendingPublish, q: PendingPublish) -> bool {
    &&& q.attempts == p.attempts + 1
    &&& q.packet_id == p.packet_id
    &&& q.topic == p.topic
    &&& q.payload == p.payload
    &&& q.qos == p.qos
    &&& q.retain == p.retain
    &&& q.first_sent == p.first_sent
}

/// The subscriptions after subscribing to filter `f` with `qos`: the
/// filter's QoS is replaced, or the filter added.
pub open spec fn spec_subscribe(s: Seq<(Seq<char>, QoS)>, f: Seq<char>, qos: QoS) -> Seq<(Seq<char>, QoS)> {
    let k = key_index(s, f);
    if k >= 0 {
        s.update(k, (f, qos))
    } else {
        s.push((f, qos))
    }
}

/// The subscriptions after unsubscribing from filter `f`.
pub open spec fn spec_unsubscribe(s: Seq<(Seq<char>, QoS)>, f: Seq<char>) -> Seq<(Seq<char>, QoS)> {
    let k = key_index(s, f);
    if k >= 0 {
        s.remove(k)
    } else {
        s
    }
}

/// MQTT session: persists across connections when clean_session is false.
#[derive(Debug)]
pub struct Session {
    /// Client identifier.
    client_id: String,
    /// Whether this is a clean session.
    clean_session: bool,
    /// Topic filter subscriptions with their QoS.
    subscriptions: Vec<(String, QoS)>,
    /// Packet identifier allocator for outbound messages.
    packet_id_allocator: PacketIdAllocator,
    /// QoS 1 outbound messages awaiting PUBACK.
    qos1_outbound: Vec<(u16, QoS1State)>,
    /// QoS 2 outbound messages (we sent PUBLISH).
    qos2_outbound: Vec<(u16, QoS2OutboundState)>,
    /// QoS 2 inbound messages (we received PUBLISH).
    qos2_inbound: Vec<(u16, QoS2InboundState)>,
    /// Messages queued while the client is offline.
    offline_queue: VecDeque<QueuedMessage>,
    /// Session creation time.
    created_at: Instant,
    /// Last activity time.
    last_active: Instant,
    /// Configuration.
    config: SessionConfig,
}

impl Session {
    pub closed spec fn client(&self) -> Seq<char> {
        self.client_id@
    }

    pub closed spec fn clean(&self) -> bool {
        self.clean_session
    }

    /// The subscriptions, in order.
    pub closed spec fn subs(&self) -> Seq<(Seq<char>, QoS)> {
        entries_view(self.subscriptions@)
    }

    /// The packet identifier allocator.
    pub closed spec fn allocator(&self) -> PacketIdAllocator {
        self.packet_id_allocator
    }

    /// QoS 1 outbound flows by packet identifier.
    pub closed spec fn qos1(&self) -> Seq<(u16, QoS1State)> {
        self.qos1_outbound@
    }

    /// QoS 2 outbound flows by packet identifier.
    pub closed spec fn qos2_out(&self) -> Seq<(u16, QoS2OutboundState)> {
        self.qos2_outbound@
    }

    /// QoS 2 inbound flows by packet identifier.
    pub closed spec fn qos2_in(&self) -> Seq<(u16, QoS2InboundState)> {
        self.qos2_inbound@
    }

    /// The offline queue, oldest first.
    pub closed spec fn queue(&self) -> Seq<QueuedMessage> {
        self.offline_queue@
    }

    /// The configuration.
    pub closed spec fn configuration(&self) -> SessionConfig {
        self.config
    }

    /// The session's invariant: one entry per subscription filter and per
    /// packet identifier, and an allocator that never starts at 0.
    pub closed spec fn wf(&self) -> bool {
        &&& keys_unique(self.subs())
        &&& ids_unique(self.qos1())
        &&& ids_unique(self.qos2_out())
        &&& ids_unique(self.qos2_in())
        &&& self.packet_id_allocator.next() != 0
    }

    /// A well-formed session holds at most one subscription per filter.
    pub proof fn lemma_subs_unique(&self)
        requires
            self.wf(),
        ensures
            keys_unique(self.subs()),
    {
    }

    /// The client identifier, the clean-session flag and the configuration
    /// are those of `o`.
    pub open spec fn same_identity(&self, o: &Self) -> bool {
        &&& self.client() == o.client()
        &&& self.clean() == o.clean()
        &&& self.configuration() == o.configuration()
    }

    /// The QoS flows are those of `o`.
    pub open spec fn same_flows(&self, o: &Self) -> bool {
        &&& self.qos1() == o.qos1()
        &&& self.qos2_out() == o.qos2_out()
        &&& self.qos2_in() == o.qos2_in()
    }

    /// A new session.
    pub fn new(client_id: String, clean_session: bool, config: SessionConfig) -> (r: Self)
        ensures
            r.wf(),
            r.client() == client_id@,
            r.clean() == clean_session,
            r.subs().len() == 0,
            r.allocator().used() == Set::<u16>::empty(),
            r.qos1().len() == 0,
            r.qos2_out().len() == 0,
            r.qos2_in().len() == 0,
            r.queue().len() == 0,
            r.configuration() == config,
    {
        let now = instant_now();
        let r = Session {
            client_id,
            clean_session,
            subscriptions: Vec::new(),
            packet_id_allocator: PacketIdAllocator::new(),
            qos1_outbound: Vec::new(),
            qos2_outbound: Vec::new(),
            qos2_inbound: Vec::new(),
            offline_queue: VecDeque::new(),
            created_at: now,
            last_active: now,
            config,
        };
        assert(r.subs() =~= Seq::<(Seq<char>, QoS)>::empty());
        r
    }

    /// The client identifier.
    pub fn client_id(&self) -> (r: &str)
        ensures
            r@ == self.client(),
    {
        self.client_id.as_str()
    }

    /// Whether this is a clean session.
    pub fn is_clean_session(&self) -> (r: bool)
        ensures
            r == self.clean(),
    {
        self.clean_session
    }

    /// Record activity now.
    pub fn touch(&mut self)
        ensures
            final(self).client() == old(self).client(),
            final(self).clean() == old(self).clean(),
            final(self).subs() == old(self).subs(),
            final(self).allocator() == old(self).allocator(),
            final(self).qos1() == old(self).qos1(),
            final(self).qos2_out() == old(self).qos2_out(),
            final(self).qos2_in() == old(self).qos2_in(),
            final(self).queue() == old(self).queue(),
            final(self).configuration() == old(self).configuration(),
            final(self).wf() == old(self).wf(),
    {
        self.last_active = instant_now();
    }

    /// Whether the session has expired: with an expiry interval, once more
    /// than that has passed since the last activity (the elapsed time comes
    /// from the clock).
    pub fn is_expired(&self) -> (r: bool)
        ensures
            self.configuration().session_expiry is None ==> !r,
            exists|elapsed: u128|
                r == #[trigger] expired_after(expiry_nanos_of(self.configuration()), elapsed),
    {
        let expiry = match &self.config.session_expiry {
            Some(d) => Some(duration_nanos(d)),
            None => None,
        };
        let elapsed = elapsed_nanos(&self.last_active);
        session_expired(expiry, elapsed)
    }

    // Subscriptions

    /// Add or update a subscription; returns the QoS it replaced, if the
    /// filter was subscribed already.
    pub fn subscribe(&mut self, topic_filter: String, qos: QoS) -> (r: Option<QoS>)
        requires
            old(self).wf(),
        ensures
            final(self).wf(),
            ({
                let k = key_index(old(self).subs(), topic_filter@);
                if k >= 0 {
                    &&& r == Some(old(self).subs()[k].1)
                    &&& final(self).subs() == old(self).subs().update(k, (topic_filter@, qos))
                } else {
                    &&& r is None
                    &&& final(self).subs() == old(self).subs().push((topic_filter@, qos))
                }
            }),
            final(self).same_identity(old(self)),
            final(self).same_flows(old(self)),
            final(self).allocator() == old(self).allocator(),
            final(self).queue() == old(self).queue(),
    {
        let ghost f = topic_filter@;
        proof {
            lemma_key_index(self.subs(), f);
        }
        match find_entry(&self.subscriptions, topic_filter.as_str()) {
            Some(k) => {
                let previous = self.subscriptions[k].1;
                self.subscriptions.set(k, (topic_filter, qos));
                proof {
                    assert(self.subs() =~= old(self).subs().update(k as int, (f, qos)));
                    assert forall|a: int, b: int| 0 <= a < b < self.subs().len() implies self.subs()[a].0
                        != self.subs()[b].0 by {
                        assert(self.subs()[a].0 == old(self).subs()[a].0);
                        assert(self.subs()[b].0 == old(self).subs()[b].0);
                    }
                }
                Some(previous)
            },
            None => {
                self.subscriptions.push((topic_filter, qos));
                proof {
                    assert(self.subs() =~= old(self).subs().push((f, qos)));
                    assert forall|a: int, b: int| 0 <= a < b < self.subs().len() implies self.subs()[a].0
                        != self.subs()[b].0 by {
                        if b == old(self).subs().len() {
                            assert(old(self).subs()[a].0 != f);
                        }
                    }
                }
                None
            },
        }
    }

    /// Remove a subscription; returns whether the filter was subscribed.
    pub fn unsubscribe(&mut self, topic_filter: &str) -> (r: bool)
        requires
            old(self).wf(),
        ensures
            final(self).wf(),
            ({
                let k = key_index(old(self).subs(), topic_filter@);
                &&& r == (k >= 0)
                &&& final(self).subs() == if k >= 0 {
                    old(self).subs().remove(k)
                } else {
                    old(self).subs()
                }
            }),
            final(self).same_identity(old(self)),
            final(self).same_flows(old(self)),
            final(self).allocator() == old(self).allocator(),
            final(self).queue() == old(self).queue(),
    {
        proof {
            lemma_key_index(self.subs(), topic_filter@);
        }
        match find_entry(&self.subscriptions, topic_filter) {
            Some(k) => {
                self.subscriptions.remove(k);
                proof {
                    assert(self.subs() =~= old(self).subs().remove(k as int));
                    lemma_remove_keeps_unique(old(self).subs(), k as int);
                }
                true
            },
            None => false,
        }
    }

    /// All subscriptions, with their QoS.
    pub fn subscriptions(&self) -> (r: &Vec<(String, QoS)>)
        ensures
            entries_view(r@) == self.subs(),
    {
        &self.subscriptions
    }

    /// Whether a topic filter is subscribed.
    pub fn is_subscribed(&self, topic_filter: &str) -> (r: bool)
        ensures
            r == (key_index(self.subs(), topic_filter@) >= 0),
    {
        find_entry(&self.subscriptions, topic_filter).is_some()
    }

    /// Remove all subscriptions.
    pub fn clear_subscriptions(&mut self)
        requires
            old(self).wf(),
        ensures
            final(self).wf(),
            final(self).subs().len() == 0,
            final(self).same_identity(old(self)),
            final(self).same_flows(old(self)),
            final(self).allocator() == old(self).allocator(),
            final(self).queue() == old(self).queue(),
    {
        self.subscriptions.clear();
        proof {
            assert(self.subs().len() == 0);
        }
    }

    // Packet identifiers

    /// Allocate a packet identifier for an outbound QoS 1/2 message: the
    /// first not in use from the allocator's next one on; `None` when all
    /// are in use.
    pub fn allocate_packet_id(&mut self) -> (r: Option<u16>)
        requires
            old(self).wf(),
        ensures
            final(self).wf(),
            allocation(old(self).allocator(), final(self).allocator(), r),
            final(self).same_identity(old(self)),
            final(self).same_flows(old(self)),
            final(self).subs() == old(self).subs(),
            final(self).queue() == old(self).queue(),
    {
        self.packet_id_allocator.allocate()
    }

    /// Release a packet identifier.
    pub fn release_packet_id(&mut self, id: u16)
        requires
            old(self).wf(),
        ensures
            final(self).wf(),
            final(self).allocator().used() == old(self).allocator().used().remove(id),
            final(self).allocator().next() == old(self).allocator().next(),
            final(self).same_identity(old(self)),
            final(self).same_flows(old(self)),
            final(self).subs() == old(self).subs(),
            final(self).queue() == old(self).queue(),
    {
        self.packet_id_allocator.release(id);
    }

    // QoS 1 outbound flows

    /// Start a QoS 1 outbound delivery; a packet identifier in flight
    /// already is refused.
    pub fn start_qos1_publish(&mut self, pending: PendingPublish) -> (r: Result<(), QoSError>)
        requires
            old(self).wf(),
        ensures
            final(self).wf(),
            ({
                let id = pending.packet_id;
                if id_index(old(self).qos1(), id) >= 0 {
                    &&& r == Err::<(), QoSError>(QoSError::DuplicatePacketId(id))
                    &&& final(self).qos1() == old(self).qos1()
                } else {
                    &&& r == Ok::<(), QoSError>(())
                    &&& final(self).qos1() == old(self).qos1().push(
                        (id, QoS1State::AwaitingPubAck(pending)),
                    )
                }
            }),
            final(self).qos2_out() == old(self).qos2_out(),
            final(self).qos2_in() == old(self).qos2_in(),
            final(self).same_identity(old(self)),
            final(self).subs() == old(self).subs(),
            final(self).allocator() == old(self).allocator(),
            final(self).queue() == old(self).queue(),
    {
        let packet_id = pending.packet_id;
        if find_id(&self.qos1_outbound, packet_id).is_some() {
            return Err(QoSError::DuplicatePacketId(packet_id));
        }
        let ghost entry = (packet_id, QoS1State::AwaitingPubAck(pending));
        self.qos1_outbound.push((packet_id, QoS1State::new(pending)));
        proof {
            lemma_ids_unique_push(old(self).qos1(), entry);
        }
        Ok(())
    }

    /// Handle a PUBACK. For a flow in progress the flow ends, and its packet
    /// identifier is released when the acknowledgment completes it; an
    /// unknown identifier (a duplicate acknowledgment) is ignored.
    pub fn on_puback(&mut self, packet_id: u16) -> (r: Result<(), QoSError>)
        requires
            old(self).wf(),
        ensures
            final(self).wf(),
            ({
                let k = id_index(old(self).qos1(), packet_id);
                if k < 0 {
                    &&& r == Ok::<(), QoSError>(())
                    &&& final(self).qos1() == old(self).qos1()
                    &&& final(self).allocator() == old(self).allocator()
                } else {
                    &&& final(self).qos1() == old(self).qos1().remove(k)
                    &&& r == match old(self).qos1()[k].1 {
                        QoS1State::AwaitingPubAck(p) => if p.packet_id == packet_id {
                            Ok(())
                        } else {
                            Err(QoSError::PacketIdMismatch { expected: p.packet_id, received: packet_id })
                        },
                        QoS1State::Complete => Err(QoSError::UnexpectedAck),
                    }
                    &&& final(self).allocator().used() == if r is Ok {
                        old(self).allocator().used().remove(packet_id)
                    } else {
                        old(self).allocator().used()
                    }
                    &&& final(self).allocator().next() == old(self).allocator().next()
                }
            }),
            final(self).qos2_out() == old(self).qos2_out(),
            final(self).qos2_in() == old(self).qos2_in(),
            final(self).same_identity(old(self)),
            final(self).subs() == old(self).subs(),
            final(self).queue() == old(self).queue(),
            puback_effect(*old(self), *final(self), packet_id),
    {
        proof {
            lemma_id_index(self.qos1(), packet_id);
        }
        match find_id(&self.qos1_outbound, packet_id) {
            None => Ok(()),
            Some(k) => {
                let (_, state) = self.qos1_outbound.remove(k);
                proof {
                    lemma_ids_unique_edit(old(self).qos1(), k as int, old(self).qos1()[k as int]);
                }
                match state.on_puback(packet_id) {
                    Err(e) => Err(e),
                    Ok(new_state) => {
                        if !new_state.is_complete() {
                            self.qos1_outbound.insert(k, (packet_id, new_state));
                        } else {
                            self.packet_id_allocator.release(packet_id);
                        }
                        Ok(())
                    },
                }
            },
        }
    }

    /// The QoS 1 flows due for retransmission, by packet identifier, in
    /// order. Whether a flow is due depends on the clock; only flows awaiting
    /// their PUBACK with attempts left can be.
    pub fn get_qos1_retries(&self) -> (r: Vec<u16>)
        ensures
            exists|due: Seq<bool>|
                {
                    &&& due.len() == self.qos1().len()
                    &&& r@ == selected_ids(self.qos1(), due)
                    &&& forall|j: int|
                        0 <= j < due.len() && #[trigger] due[j] ==> qos1_may_retry(
                            self.qos1()[j].1,
                            self.configuration().qos_config.max_retries,
                        )
                },
    {
        let ghost s = self.qos1();
        let ghost max = self.config.qos_config.max_retries;
        let mut r: Vec<u16> = Vec::new();
        let ghost mut due: Seq<bool> = Seq::empty();
        let mut i: usize = 0;
        while i < self.qos1_outbound.len()
            invariant
                s == self.qos1(),
                max == self.configuration().qos_config.max_retries,
                i <= s.len(),
                due.len() == i,
                r@ == selected_ids(s.take(i as int), due),
                forall|j: int| 0 <= j < i && #[trigger] due[j] ==> qos1_may_retry(s[j].1, max),
            decreases s.len() - i,
        {
            let retry = match self.qos1_outbound[i].1.pending() {
                Some(p) => p.should_retry(&self.config.qos_config),
                None => false,
            };
            if retry {
                r.push(self.qos1_outbound[i].0);
            }
            proof {
                lemma_selected_ids_step(s, due, i as int, retry);
                due = due.push(retry);
            }
            i = i + 1;
        }
        proof {
            assert(s.take(s.len() as int) =~= s);
        }
        r
    }

    /// Mark a QoS 1 flow's message as retried: one more attempt, sent now.
    pub fn mark_qos1_retried(&mut self, packet_id: u16)
        requires
            old(self).wf(),
            ({
                let k = id_index(old(self).qos1(), packet_id);
                k >= 0 ==> (old(self).qos1()[k].1 matches QoS1State::AwaitingPubAck(p) ==> p.attempts
                    < u32::MAX)
            }),
        ensures
            final(self).wf(),
            ({
                let k = id_index(old(self).qos1(), packet_id);
                if k < 0 {
                    final(self).qos1() == old(self).qos1()
                } else {
                    &&& final(self).qos1().len() == old(self).qos1().len()
                    &&& forall|i: int|
                        0 <= i < old(self).qos1().len() && i != k ==> #[trigger] final(self).qos1()[i]
                            == old(self).qos1()[i]
                    &&& final(self).qos1()[k].0 == packet_id
                    &&& match old(self).qos1()[k].1 {
                        QoS1State::AwaitingPubAck(p) => final(self).qos1()[k].1 matches QoS1State::AwaitingPubAck(q)
                            && retried_once(p, q),
                        QoS1State::Complete => final(self).qos1()[k].1 is Complete,
                    }
                }
            }),
            final(self).qos2_out() == old(self).qos2_out(),
            final(self).qos2_in() == old(self).qos2_in(),
            final(self).same_identity(old(self)),
            final(self).subs() == old(self).subs(),
            final(self).allocator() == old(self).allocator(),
            final(self).queue() == old(self).queue(),
    {
        proof {
            lemma_id_index(self.qos1(), packet_id);
        }
        if let Some(k) = find_id(&self.qos1_outbound, packet_id) {
            let (id, state) = self.qos1_outbound.remove(k);
            let state = match state {
                QoS1State::AwaitingPubAck(mut pending) => {
                    pending.mark_retried();
                    QoS1State::AwaitingPubAck(pending)
                },
                QoS1State::Complete => QoS1State::Complete,
            };
            self.qos1_outbound.insert(k, (id, state));
            proof {
                assert(self.qos1() =~= old(self).qos1().update(k as int, (id, state)));
                lemma_ids_unique_edit(old(self).qos1(), k as int, (id, state));
            }
        }
    }

    /// The pending message of a QoS 1 flow awaiting its PUBACK.
    pub fn get_qos1_pending(&self, packet_id: u16) -> (r: Option<&PendingPublish>)
        ensures
            ({
                let k = id_index(self.qos1(), packet_id);
                if k >= 0 {
                    match self.qos1()[k].1 {
                        QoS1State::AwaitingPubAck(p) => r == Some(&p),
                        QoS1State::Complete => r is None,
                    }
                } else {
                    r is None
                }
            }),
    {
        proof {
            lemma_id_index(self.qos1(), packet_id);
        }
        match find_id(&self.qos1_outbound, packet_id) {
            Some(k) => self.qos1_outbound[k].1.pending(),
            None => None,
        }
    }

    // QoS 2 outbound flows (this side sends)

    /// Start a QoS 2 outbound delivery; a packet identifier in flight
    /// already is refused.
    pub fn start_qos2_publish(&mut self, pending: PendingPublish) -> (r: Result<(), QoSError>)
        requires
            old(self).wf(),
        ensures
            final(self).wf(),
            ({
                let id = pending.packet_id;
                if id_index(old(self).qos2_out(), id) >= 0 {
                    &&& r == Err::<(), QoSError>(QoSError::DuplicatePacketId(id))
                    &&& final(self).qos2_out() == old(self).qos2_out()
                } else {
                    &&& r == Ok::<(), QoSError>(())
                    &&& final(self).qos2_out() == old(self).qos2_out().push(
                        (id, QoS2OutboundState::AwaitingPubRec(pending)),
                    )
                }
            }),
            final(self).qos1() == old(self).qos1(),
            final(self).qos2_in() == old(self).qos2_in(),
            final(self).same_identity(old(self)),
            final(self).subs() == old(self).subs(),
            final(self).allocator() == old(self).allocator(),
            final(self).queue() == old(self).queue(),
    {
        let packet_id = pending.packet_id;
        if find_id(&self.qos2_outbound, packet_id).is_some() {
            return Err(QoSError::DuplicatePacketId(packet_id));
        }
        let ghost entry = (packet_id, QoS2OutboundState::AwaitingPubRec(pending));
        self.qos2_outbound.push((packet_id, QoS2OutboundState::new(pending)));
        proof {
            lemma_ids_unique_push(old(self).qos2_out(), entry);
        }
        Ok(())
    }

    /// Handle a PUBREC (step 2 of QoS 2); returns whether a PUBREL is to be
    /// sent. A flow awaiting PUBREC moves on to awaiting PUBCOMP; a flow
    /// awaiting PUBCOMP already stays as it is; any other flow ends with an
    /// error; an unknown identifier is answered with no PUBREL.
    pub fn on_pubrec(&mut self, packet_id: u16) -> (r: Result<bool, QoSError>)
        requires
            old(self).wf(),
        ensures
            final(self).wf(),
            r == pubrec_reply(*old(self), packet_id),
            pubrec_effect(*old(self), *final(self), packet_id),
    {
        proof {
            lemma_id_index(self.qos2_out(), packet_id);
        }
        match find_id(&self.qos2_outbound, packet_id) {
            None => Ok(false),
            Some(k) => {
                let (_, state) = self.qos2_outbound.remove(k);
                proof {
                    lemma_ids_unique_edit(old(self).qos2_out(), k as int, old(self).qos2_out()[k as int]);
                }
                match state.on_pubrec(packet_id) {
                    Err(e) => Err(e),
                    Ok(new_state) => {
                        let needs_pubrel = match new_state {
                            QoS2OutboundState::AwaitingPubComp { .. } => true,
                            _ => false,
                        };
                        self.qos2_outbound.insert(k, (packet_id, new_state));
                        proof {
                            assert(self.qos2_out() =~= old(self).qos2_out().update(
                                k as int,
                                (packet_id, new_state),
                            ));
                            lemma_ids_unique_edit(old(self).qos2_out(), k as int, (packet_id, new_state));
                            if old(self).qos2_out()[k as int].1 is AwaitingPubComp {
                                assert(old(self).qos2_out()[k as int] == (packet_id, new_state));
                                assert(self.qos2_out() =~= old(self).qos2_out());
                            }
                        }
                        Ok(needs_pubrel)
                    },
                }
            },
        }
    }

    /// Handle a PUBCOMP (step 4 of QoS 2). For a flow in progress the flow
    /// ends, and its packet identifier is released when the PUBCOMP completes
    /// it; an unknown identifier is ignored.
    pub fn on_pubcomp(&mut self, packet_id: u16) -> (r: Result<(), QoSError>)
        requires
            old(self).wf(),
        ensures
            final(self).wf(),
            ({
                let k = id_index(old(self).qos2_out(), packet_id);
                if k < 0 {
                    &&& r == Ok::<(), QoSError>(())
                    &&& final(self).qos2_out() == old(self).qos2_out()
                    &&& final(self).allocator() == old(self).allocator()
                } else {
                    &&& final(self).qos2_out() == old(self).qos2_out().remove(k)
                    &&& r == match old(self).qos2_out()[k].1 {
                        QoS2OutboundState::AwaitingPubComp { packet_id: expected, .. } => if expected
                            == packet_id {
                            Ok(())
                        } else {
                            Err(QoSError::PacketIdMismatch { expected, received: packet_id })
                        },
                        _ => Err(QoSError::UnexpectedAck),
                    }
                    &&& final(self).allocator().used() == if r is Ok {
                        old(self).allocator().used().remove(packet_id)
                    } else {
                        old(self).allocator().used()
                    }
                    &&& final(self).allocator().next() == old(self).allocator().next()
                }
            }),
            final(self).qos1() == old(self).qos1(),
            final(self).qos2_in() == old(self).qos2_in(),
            final(self).same_identity(old(self)),
            final(self).subs() == old(self).subs(),
            final(self).queue() == old(self).queue(),
            pubcomp_effect(*old(self), *final(self), packet_id),
    {
        proof {
            lemma_id_index(self.qos2_out(), packet_id);
        }
        match find_id(&self.qos2_outbound, packet_id) {
            None => Ok(()),
            Some(k) => {
                let (_, state) = self.qos2_outbound.remove(k);
                proof {
                    lemma_ids_unique_edit(old(self).qos2_out(), k as int, old(self).qos2_out()[k as int]);
                }
                match state.on_pubcomp(packet_id) {
                    Err(e) => Err(e),
                    Ok(new_state) => {
                        if !new_state.is_complete() {
                            self.qos2_outbound.insert(k, (packet_id, new_state));
                        } else {
                            self.packet_id_allocator.release(packet_id);
                        }
                        Ok(())
                    },
                }
            },
        }
    }

    /// The QoS 2 outbound flows whose PUBLISH is due for retransmission, by
    /// packet identifier, in order. Whether a flow is due depends on the
    /// clock; only flows awaiting PUBREC with attempts left can be.
    pub fn get_qos2_publish_retries(&self) -> (r: Vec<u16>)
        ensures
            exists|due: Seq<bool>|
                {
                    &&& due.len() == self.qos2_out().len()
                    &&& r@ == selected_ids(self.qos2_out(), due)
                    &&& forall|j: int|
                        0 <= j < due.len() && #[trigger] due[j] ==> qos2_publish_may_retry(
                            self.qos2_out()[j].1,
                            self.configuration().qos_config.max_retries,
                        )
                },
    {
        let ghost s = self.qos2_out();
        let ghost max = self.config.qos_config.max_retries;
        let mut r: Vec<u16> = Vec::new();
        let ghost mut due: Seq<bool> = Seq::empty();
        let mut i: usize = 0;
        while i < self.qos2_outbound.len()
            invariant
                s == self.qos2_out(),
                max == self.configuration().qos_config.max_retries,
                i <= s.len(),
                due.len() == i,
                r@ == selected_ids(s.take(i as int), due),
                forall|j: int| 0 <= j < i && #[trigger] due[j] ==> qos2_publish_may_retry(s[j].1, max),
            decreases s.len() - i,
        {
            let retry = match &self.qos2_outbound[i].1 {
                QoS2OutboundState::AwaitingPubRec(p) => p.should_retry(&self.config.qos_config),
                _ => false,
            };
            if retry {
                r.push(self.qos2_outbound[i].0);
            }
            proof {
                lemma_selected_ids_step(s, due, i as int, retry);
                due = due.push(retry);
            }
            i = i + 1;
        }
        proof {
            assert(s.take(s.len() as int) =~= s);
        }
        r
    }

    /// The QoS 2 outbound flows whose PUBREL is due for retransmission, by
    /// packet identifier, in order. Whether a flow is due depends on the
    /// clock; only flows awaiting PUBCOMP with attempts left can be.
    pub fn get_qos2_pubrel_retries(&self) -> (r: Vec<u16>)
        ensures
            exists|due: Seq<bool>|
                {
                    &&& due.len() == self.qos2_out().len()
                    &&& r@ == selected_ids(self.qos2_out(), due)
                    &&& forall|j: int|
                        0 <= j < due.len() && #[trigger] due[j] ==> qos2_pubrel_may_retry(
                            self.qos2_out()[j].1,
                            self.configuration().qos_config.max_retries,
                        )
                },
    {
        let ghost s = self.qos2_out();
        let ghost max = self.config.qos_config.max_retries;
        let mut r: Vec<u16> = Vec::new();
        let ghost mut due: Seq<bool> = Seq::empty();
        let mut i: usize = 0;
        while i < self.qos2_outbound.len()
            invariant
                s == self.qos2_out(),
                max == self.configuration().qos_config.max_retries,
                i <= s.len(),
                due.len() == i,
                r@ == selected_ids(s.take(i as int), due),
                forall|j: int| 0 <= j < i && #[trigger] due[j] ==> qos2_pubrel_may_retry(s[j].1, max),
            decreases s.len() - i,
        {
            let retry = self.qos2_outbound[i].1.should_retry_pubrel(&self.config.qos_config);
            if retry {
                r.push(self.qos2_outbound[i].0);
            }
            proof {
                lemma_selected_ids_step(s, due, i as int, retry);
                due = due.push(retry);
            }
            i = i + 1;
        }
        proof {
            assert(s.take(s.len() as int) =~= s);
        }
        r
    }

    // QoS 2 inbound flows (this side receives)

    /// Start a QoS 2 inbound flow after a PUBLISH (a PUBREC is to be sent);
    /// returns false for a duplicate PUBLISH, whose identifier is in flight
    /// already.
    pub fn start_qos2_receive(&mut self, packet_id: u16) -> (r: bool)
        requires
            old(self).wf(),
        ensures
            final(self).wf(),
            r == (id_index(old(self).qos2_in(), packet_id) < 0),
            r ==> {
                &&& final(self).qos2_in().len() == old(self).qos2_in().len() + 1
                &&& final(self).qos2_in().drop_last() == old(self).qos2_in()
                &&& final(self).qos2_in().last().0 == packet_id
                &&& final(self).qos2_in().last().1 matches QoS2InboundState::AwaitingPubRel {
                    packet_id: id,
                    ..
                } && id == packet_id
            },
            !r ==> final(self).qos2_in() == old(self).qos2_in(),
            final(self).qos1() == old(self).qos1(),
            final(self).qos2_out() == old(self).qos2_out(),
            final(self).same_identity(old(self)),
            final(self).subs() == old(self).subs(),
            final(self).allocator() == old(self).allocator(),
            final(self).queue() == old(self).queue(),
    {
        if find_id(&self.qos2_inbound, packet_id).is_some() {
            // A duplicate PUBLISH: the PUBREC is sent again
            return false;
        }
        let state = QoS2InboundState::new(packet_id);
        self.qos2_inbound.push((packet_id, state));
        proof {
            lemma_ids_unique_push(old(self).qos2_in(), (packet_id, state));
            assert(self.qos2_in().drop_last() =~= old(self).qos2_in());
        }
        true
    }

    /// Handle a PUBREL (step 3 of QoS 2); returns whether a PUBCOMP is to be
    /// sent, which it is for an unknown identifier too (a duplicate PUBREL).
    /// The flow ends.
    pub fn on_pubrel(&mut self, packet_id: u16) -> (r: Result<bool, QoSError>)
        requires
            old(self).wf(),
        ensures
            final(self).wf(),
            ({
                let k = id_index(old(self).qos2_in(), packet_id);
                if k < 0 {
                    &&& r == Ok::<bool, QoSError>(true)
                    &&& final(self).qos2_in() == old(self).qos2_in()
                } else {
                    &&& final(self).qos2_in() == old(self).qos2_in().remove(k)
                    &&& r == match old(self).qos2_in()[k].1 {
                        QoS2InboundState::AwaitingPubRel { packet_id: expected, .. } => if expected
                            == packet_id {
                            Ok(true)
                        } else {
                            Err(QoSError::PacketIdMismatch { expected, received: packet_id })
                        },
                        QoS2InboundState::Complete => Ok(true),
                    }
                }
            }),
            final(self).qos1() == old(self).qos1(),
            final(self).qos2_out() == old(self).qos2_out(),
            final(self).same_identity(old(self)),
            final(self).subs() == old(self).subs(),
            final(self).allocator() == old(self).allocator(),
            final(self).queue() == old(self).queue(),
            pubrel_effect(*old(self), *final(self), packet_id),
    {
        proof {
            lemma_id_index(self.qos2_in(), packet_id);
        }
        match find_id(&self.qos2_inbound, packet_id) {
            None => Ok(true),
            Some(k) => {
                let (_, state) = self.qos2_inbound.remove(k);
                proof {
                    lemma_ids_unique_edit(old(self).qos2_in(), k as int, old(self).qos2_in()[k as int]);
                }
                match state.on_pubrel(packet_id) {
                    Err(e) => Err(e),
                    Ok(new_state) => {
                        if !new_state.is_complete() {
                            self.qos2_inbound.insert(k, (packet_id, new_state));
                        }
                        Ok(true)
                    },
                }
            },
        }
    }

    // Offline queue

    /// Queue a message for offline delivery; with the queue full, the oldest
    /// message is dropped first. Always accepts the message.
    pub fn queue_message(&mut self, msg: QueuedMessage) -> (r: bool)
        requires
            old(self).wf(),
        ensures
            final(self).wf(),
            r,
            final(self).queue() == if old(self).queue().len() >= old(self).configuration().max_offline_messages
                && old(self).queue().len() > 0 {
                old(self).queue().drop_first().push(msg)
            } else {
                old(self).queue().push(msg)
            },
            old(self).queue().len() <= old(self).configuration().max_offline_messages
                && old(self).configuration().max_offline_messages > 0 ==> final(self).queue().len()
                <= final(self).configuration().max_offline_messages,
            final(self).same_identity(old(self)),
            final(self).same_flows(old(self)),
            final(self).subs() == old(self).subs(),
            final(self).allocator() == old(self).allocator(),
    {
        if self.offline_queue.len() >= self.config.max_offline_messages {
            // Queue full: drop the oldest message
            self.offline_queue.pop_front();
        }
        self.offline_queue.push_back(msg);
        proof {
            if old(self).queue().len() >= old(self).configuration().max_offline_messages
                && old(self).queue().len() > 0 {
                assert(self.queue() =~= old(self).queue().drop_first().push(msg));
            }
        }
        true
    }

    /// Take the oldest queued message.
    pub fn dequeue_message(&mut self) -> (r: Option<QueuedMessage>)
        requires
            old(self).wf(),
        ensures
            final(self).wf(),
            old(self).queue().len() > 0 ==> r == Some(old(self).queue()[0]) && final(self).queue()
                == old(self).queue().drop_first(),
            old(self).queue().len() == 0 ==> r is None && final(self).queue() == old(self).queue(),
            final(self).same_identity(old(self)),
            final(self).same_flows(old(self)),
            final(self).subs() == old(self).subs(),
            final(self).allocator() == old(self).allocator(),
    {
        let r = self.offline_queue.pop_front();
        proof {
            if old(self).queue().len() > 0 {
                assert(self.queue() =~= old(self).queue().drop_first());
            }
        }
        r
    }

    /// The number of queued messages.
    pub fn queued_message_count(&self) -> (r: usize)
        ensures
            r == self.queue().len(),
    {
        self.offline_queue.len()
    }

    /// Whether messages are queued.
    pub fn has_queued_messages(&self) -> (r: bool)
        ensures
            r == (self.queue().len() > 0),
    {
        self.offline_queue.len() != 0
    }

    /// Take all queued messages, oldest first.
    pub fn drain_queued_messages(&mut self) -> (r: Vec<QueuedMessage>)
        requires
            old(self).wf(),
        ensures
            final(self).wf(),
            r@ == old(self).queue(),
            final(self).queue().len() == 0,
            final(self).same_identity(old(self)),
            final(self).same_flows(old(self)),
            final(self).subs() == old(self).subs(),
            final(self).allocator() == old(self).allocator(),
    {
        let mut r: Vec<QueuedMessage> = Vec::new();
        while self.offline_queue.len() > 0
            invariant
                r@ + self.queue() == old(self).queue(),
                self.wf(),
                self.same_identity(old(self)),
                self.same_flows(old(self)),
                self.subs() == old(self).subs(),
                self.allocator() == old(self).allocator(),
            decreases self.queue().len(),
        {
            let ghost before = self.queue();
            match self.offline_queue.pop_front() {
                Some(m) => {
                    r.push(m);
                    proof {
                        assert(r@ + self.queue() =~= old(self).queue()) by {
                            assert(before =~= seq![m] + self.queue());
                        }
                    }
                },
                None => {},
            }
        }
        assert(r@ =~= old(self).queue());
        r
    }

    // Cleanup

    /// Clear all state, for a clean session or an expired one: no
    /// subscriptions, no identifiers in use, no flows, no queued messages.
    pub fn clear(&mut self)
        requires
            old(self).wf(),
        ensures
            final(self).wf(),
            final(self).subs().len() == 0,
            final(self).allocator().used() == Set::<u16>::empty(),
            final(self).allocator().next() == 1,
            final(self).qos1().len() == 0,
            final(self).qos2_out().len() == 0,
            final(self).qos2_in().len() == 0,
            final(self).queue().len() == 0,
            final(self).same_identity(old(self)),
    {
        self.subscriptions.clear();
        self.packet_id_allocator.clear();
        self.qos1_outbound.clear();
        self.qos2_outbound.clear();
        self.qos2_inbound.clear();
        self.offline_queue.clear();
        proof {
            assert(self.subs().len() == 0);
        }
    }

    /// The number of QoS 1/2 messages in flight (outbound).
    pub fn inflight_count(&self) -> (r: usize)
        requires
            self.wf(),
        ensures
            r == self.qos1().len() + self.qos2_out().len(),
    {
        proof {
            lemma_ids_bound(self.qos1());
            lemma_ids_bound(self.qos2_out());
        }
        self.qos1_outbound.len() + self.qos2_outbound.len()
    }

    /// Whether there is room for more messages in flight.
    pub fn has_inflight_capacity(&self) -> (r: bool)
        requires
            self.wf(),
        ensures
            r == (self.qos1().len() + self.qos2_out().len() < self.configuration().max_inflight),
    {
        self.inflight_count() < self.config.max_inflight
    }

    /// Session statistics: the counts, and the age and idle time from the
    /// clock.
    pub fn stats(&self) -> (r: SessionStats)
        ensures
            r.subscription_count == self.subs().len(),
            r.qos1_inflight == self.qos1().len(),
            r.qos2_outbound_inflight == self.qos2_out().len(),
            r.qos2_inbound_inflight == self.qos2_in().len(),
            r.offline_queue_size == self.queue().len(),
    {
        SessionStats {
            subscription_count: self.subscriptions.len(),
            qos1_inflight: self.qos1_outbound.len(),
            qos2_outbound_inflight: self.qos2_outbound.len(),
            qos2_inbound_inflight: self.qos2_inbound.len(),
            offline_queue_size: self.offline_queue.len(),
            age: elapsed(&self.created_at),
            idle_time: elapsed(&self.last_active),
        }
    }
}

impl Session {
    /// Everything but the QoS flows and the allocator is unchanged from `o`.
    pub open spec fn same_but_flows(&self, o: &Self) -> bool {
        &&& self.same_identity(o)
        &&& self.subs() == o.subs()
        &&& self.queue() == o.queue()
    }
}

/// The QoS 1 flow awaits the PUBACK for `id`.
pub open spec fn awaits_puback(st: QoS1State, id: u16) -> bool {
    st matches QoS1State::AwaitingPubAck(p) && p.packet_id == id
}

/// The QoS 2 outbound flow awaits the PUBCOMP for `id`.
pub open spec fn awaits_pubcomp(st: QoS2OutboundState, id: u16) -> bool {
    st matches QoS2OutboundState::AwaitingPubComp { packet_id: expected, .. } && expected == id
}

/// What a PUBACK for `id` does to a session, whatever it answers: the QoS 1
/// flow with that identifier ends, and its identifier is released when the
/// flow was awaiting exactly that acknowledgment.
pub open spec fn puback_effect(s0: Session, s1: Session, id: u16) -> bool {
    let k = id_index(s0.qos1(), id);
    &&& s1.same_but_flows(&s0)
    &&& s1.qos2_out() == s0.qos2_out()
    &&& s1.qos2_in() == s0.qos2_in()
    &&& s1.qos1() == if k >= 0 {
        s0.qos1().remove(k)
    } else {
        s0.qos1()
    }
    &&& s1.allocator().next() == s0.allocator().next()
    &&& s1.allocator().used() == if k >= 0 && awaits_puback(s0.qos1()[k].1, id) {
        s0.allocator().used().remove(id)
    } else {
        s0.allocator().used()
    }
}

/// What a session answers to a PUBREC for `id`: whether a PUBREL is to be
/// sent (not for an unknown identifier), or the error of the flow's state.
pub open spec fn pubrec_reply(s0: Session, id: u16) -> Result<bool, QoSError> {
    let k = id_index(s0.qos2_out(), id);
    if k < 0 {
        Ok(false)
    } else {
        match s0.qos2_out()[k].1 {
            QoS2OutboundState::AwaitingPubRec(p) => if p.packet_id == id {
                Ok(true)
            } else {
                Err(QoSError::PacketIdMismatch { expected: p.packet_id, received: id })
            },
            QoS2OutboundState::AwaitingPubComp { .. } => Ok(true),
            QoS2OutboundState::Complete => Err(QoSError::UnexpectedAck),
        }
    }
}

/// What a PUBREC for `id` does to a session: a QoS 2 outbound flow awaiting
/// that PUBREC moves on to awaiting PUBCOMP (one PUBREL sent), one awaiting
/// PUBCOMP stays, any other with that identifier ends.
pub open spec fn pubrec_effect(s0: Session, s1: Session, id: u16) -> bool {
    let k = id_index(s0.qos2_out(), id);
    &&& s1.same_but_flows(&s0)
    &&& s1.allocator() == s0.allocator()
    &&& s1.qos1() == s0.qos1()
    &&& s1.qos2_in() == s0.qos2_in()
    &&& if k < 0 {
        s1.qos2_out() == s0.qos2_out()
    } else {
        match s0.qos2_out()[k].1 {
            QoS2OutboundState::AwaitingPubRec(p) => if p.packet_id == id {
                &&& s1.qos2_out().len() == s0.qos2_out().len()
                &&& forall|i: int|
                    0 <= i < s0.qos2_out().len() && i != k ==> #[trigger] s1.qos2_out()[i] == s0.qos2_out()[i]
                &&& s1.qos2_out()[k].0 == id
                &&& s1.qos2_out()[k].1 matches QoS2OutboundState::AwaitingPubComp { packet_id: pid, attempts, .. }
                    && pid == id && attempts == 1
            } else {
                s1.qos2_out() == s0.qos2_out().remove(k)
            },
            QoS2OutboundState::AwaitingPubComp { .. } => s1.qos2_out() == s0.qos2_out(),
            QoS2OutboundState::Complete => s1.qos2_out() == s0.qos2_out().remove(k),
        }
    }
}

/// What a PUBCOMP for `id` does to a session: the QoS 2 outbound flow with
/// that identifier ends, and its identifier is released when the flow was
/// awaiting exactly that PUBCOMP.
pub open spec fn pubcomp_effect(s0: Session, s1: Session, id: u16) -> bool {
    let k = id_index(s0.qos2_out(), id);
    &&& s1.same_but_flows(&s0)
    &&& s1.qos1() == s0.qos1()
    &&& s1.qos2_in() == s0.qos2_in()
    &&& s1.qos2_out() == if k >= 0 {
        s0.qos2_out().remove(k)
    } else {
        s0.qos2_out()
    }
    &&& s1.allocator().next() == s0.allocator().next()
    &&& s1.allocator().used() == if k >= 0 && awaits_pubcomp(s0.qos2_out()[k].1, id) {
        s0.allocator().used().remove(id)
    } else {
        s0.allocator().used()
    }
}

/// What a PUBREL for `id` does to a session: the QoS 2 inbound flow with
/// that identifier ends.
pub open spec fn pubrel_effect(s0: Session, s1: Session, id: u16) -> bool {
    let k = id_index(s0.qos2_in(), id);
    &&& s1.same_but_flows(&s0)
    &&& s1.allocator() == s0.allocator()
    &&& s1.qos1() == s0.qos1()
    &&& s1.qos2_out() == s0.qos2_out()
    &&& s1.qos2_in() == if k >= 0 {
        s0.qos2_in().remove(k)
    } else {
        s0.qos2_in()
    }
}

} // verus!
