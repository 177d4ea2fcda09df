//! Message router: distributes published messages to subscribers and keeps
//! retained messages.

use vstd::prelude::*;

use crate::codec::types::{qos_value, QoS};
use crate::router::registry::{
    entries_view, flatten_sets, merge_highest, remove_client_effect, subscribe_effect,
    unsubscribe_effect, SubscriptionRegistry,
};
use crate::router::retain::{
    matching_messages, message_view, messages_view, retain_error_message, spec_store, RetainError,
    RetainStore,
};
use crate::strings::str_equal;
use crate::topic_matcher::trie::same_slot;
use crate::topic_matcher::validation::{
    spec_validate_topic_filter, split_levels, topic_error_message, TopicError,
};

verus! {

/// A message routed to a subscriber.
#[derive(Debug, Clone)]
pub struct RoutedMessage {
    /// Target client ID.
    pub client_id: String,
    /// The topic the message was published on.
    pub topic: String,
    /// The message payload.
    pub payload: Vec<u8>,
    /// The QoS for delivery (the lower of the publish QoS and the
    /// subscription QoS).
    pub qos: QoS,
    /// Whether this is a retained message sent on subscribe.
    pub is_retained: bool,
}

/// A routed message, as plain values.
pub open spec fn routed_view(m: RoutedMessage) -> (Seq<char>, Seq<char>, Seq<u8>, QoS, bool) {
    (m.client_id@, m.topic@, m.payload@, m.qos, m.is_retained)
}

/// Routed messages, as plain values.
pub open spec fn routed_list(v: Seq<RoutedMessage>) -> Seq<(Seq<char>, Seq<char>, Seq<u8>, QoS, bool)> {
    v.map_values(|m: RoutedMessage| routed_view(m))
}

/// The result of routing a published message.
#[derive(Debug)]
pub struct RouteResult {
    /// Messages to deliver to subscribers.
    pub messages: Vec<RoutedMessage>,
    /// Whether the message was stored as retained.
    pub retained: bool,
    /// Number of subscribers matched.
    pub subscriber_count: usize,
}

/// Router statistics.
#[derive(Debug, Clone)]
pub struct RouterStats {
    /// Total number of subscriptions.
    pub subscription_count: usize,
    /// Number of clients with subscriptions.
    pub client_count: usize,
    /// Number of retained messages.
    pub retained_message_count: usize,
    /// Total bytes of retained message payloads.
    pub retained_payload_bytes: usize,
}

/// Errors that can occur during routing.
#[derive(Debug)]
pub enum RouterError {
    /// A topic error.
    Topic(TopicError),
    /// A retain store error.
    Retain(RetainError),
}

/// The message of a routing error.
pub open spec fn router_error_message(e: RouterError) -> Seq<char> {
    match e {
        RouterError::Topic(t) => "Topic error: "@ + topic_error_message(t@),
        RouterError::Retain(r) => "Retain error: "@ + retain_error_message(r),
    }
}

impl RouterError {
    /// The error's message.
    pub fn message(&self) -> (r: String)
        ensures
            r@ == router_error_message(*self),
    {
        match self {
            RouterError::Topic(t) => {
                let mut m = "Topic error: ".to_string();
                let tm = t.message();
                m.append(tm.as_str());
                m
            },
            RouterError::Retain(e) => {
                let mut m = "Retain error: ".to_string();
                let em = e.message();
                m.append(em.as_str());
                m
            },
        }
    }
}

/// The lower of two QoS levels.
pub open spec fn lower_qos(a: QoS, b: QoS) -> QoS {
    if qos_value(a) <= qos_value(b) {
        a
    } else {
        b
    }
}

/// The lower of two QoS levels is at most each of them and is one of them:
/// their minimum by wire value.
pub proof fn lemma_lower_qos(a: QoS, b: QoS)
    ensures
        qos_value(lower_qos(a, b)) <= qos_value(a),
        qos_value(lower_qos(a, b)) <= qos_value(b),
        qos_value(lower_qos(a, b)) == qos_value(a) || qos_value(lower_qos(a, b)) == qos_value(b),
        lower_qos(a, b) == a || lower_qos(a, b) == b,
{
}

/// A publication routed to subscribers `subs` gives one message per
/// subscriber, in order, to that subscriber, with the topic and payload, not
/// retained, at the minimum of the publish QoS and the subscription QoS: it
/// never exceeds the publish QoS.
pub proof fn lemma_deliveries(subs: Seq<(Seq<char>, QoS)>, topic: Seq<char>, payload: Seq<u8>, qos: QoS)
    ensures
        deliveries(subs, topic, payload, qos).len() == subs.len(),
        forall|i: int|
            0 <= i < subs.len() ==> {
                let d = #[trigger] deliveries(subs, topic, payload, qos)[i];
                &&& d.0 == subs[i].0
                &&& d.1 == topic
                &&& d.2 == payload
                &&& !d.4
                &&& qos_value(d.3) <= qos_value(qos)
                &&& qos_value(d.3) <= qos_value(subs[i].1)
                &&& (qos_value(d.3) == qos_value(qos) || qos_value(d.3) == qos_value(subs[i].1))
            },
{
    assert forall|i: int| 0 <= i < subs.len() implies {
        let d = #[trigger] deliveries(subs, topic, payload, qos)[i];
        &&& d.0 == subs[i].0
        &&& d.1 == topic
        &&& d.2 == payload
        &&& !d.4
        &&& qos_value(d.3) <= qos_value(qos)
        &&& qos_value(d.3) <= qos_value(subs[i].1)
        &&& (qos_value(d.3) == qos_value(qos) || qos_value(d.3) == qos_value(subs[i].1))
    } by {
        lemma_lower_qos(qos, subs[i].1);
    }
}

/// Retained messages sent to a new subscriber go to that subscriber, with
/// the retain flag, each at the minimum of its own QoS and the granted QoS.
pub proof fn lemma_retained_deliveries(msgs: Seq<(Seq<char>, Seq<u8>, QoS)>, client_id: Seq<char>, granted: QoS)
    ensures
        retained_deliveries(msgs, client_id, granted).len() == msgs.len(),
        forall|i: int|
            0 <= i < msgs.len() ==> {
                let d = #[trigger] retained_deliveries(msgs, client_id, granted)[i];
                &&& d.0 == client_id
                &&& d.1 == msgs[i].0
                &&& d.2 == msgs[i].1
                &&& d.4
                &&& qos_value(d.3) <= qos_value(msgs[i].2)
                &&& qos_value(d.3) <= qos_value(granted)
                &&& (qos_value(d.3) == qos_value(msgs[i].2) || qos_value(d.3) == qos_value(granted))
            },
{
    assert forall|i: int| 0 <= i < msgs.len() implies {
        let d = #[trigger] retained_deliveries(msgs, client_id, granted)[i];
        &&& d.0 == client_id
        &&& d.1 == msgs[i].0
        &&& d.2 == msgs[i].1
        &&& d.4
        &&& qos_value(d.3) <= qos_value(msgs[i].2)
        &&& qos_value(d.3) <= qos_value(granted)
        &&& (qos_value(d.3) == qos_value(msgs[i].2) || qos_value(d.3) == qos_value(granted))
    } by {
        lemma_lower_qos(msgs[i].2, granted);
    }
}

/// The lower of two QoS levels.
fn min_qos(a: QoS, b: QoS) -> (r: QoS)
    ensures
        r == lower_qos(a, b),
{
    match (a, b) {
        (QoS::AtMostOnce, _) | (_, QoS::AtMostOnce) => QoS::AtMostOnce,
        (QoS::AtLeastOnce, _) | (_, QoS::AtLeastOnce) => QoS::AtLeastOnce,
        (QoS::ExactlyOnce, QoS::ExactlyOnce) => QoS::ExactlyOnce,
    }
}

/// A copy of a byte vector.
pub fn copy_bytes(v: &Vec<u8>) -> (r: Vec<u8>)
    ensures
        r@ == v@,
{
    let mut out: Vec<u8> = Vec::new();
    let mut i: usize = 0;
    while i < v.len()
        invariant
            i <= v@.len(),
            out@ == v@.take(i as int),
        decreases v@.len() - i,
    {
        out.push(v[i]);
        assert(out@ =~= v@.take(i as int + 1));
        i = i + 1;
    }
    assert(out@ =~= v@);
    out
}

/// The messages of a publication to the subscribers `subs`, each at the
/// lower of the publish QoS and its subscription QoS.
pub open spec fn deliveries(
    subs: Seq<(Seq<char>, QoS)>,
    topic: Seq<char>,
    payload: Seq<u8>,
    qos: QoS,
) -> Seq<(Seq<char>, Seq<char>, Seq<u8>, QoS, bool)> {
    subs.map_values(|s: (Seq<char>, QoS)| (s.0, topic, payload, lower_qos(qos, s.1), false))
}

/// The retained messages sent to a new subscriber, each at the lower of its
/// QoS and the granted QoS.
pub open spec fn retained_deliveries(
    msgs: Seq<(Seq<char>, Seq<u8>, QoS)>,
    client_id: Seq<char>,
    granted: QoS,
) -> Seq<(Seq<char>, Seq<char>, Seq<u8>, QoS, bool)> {
    msgs.map_values(|m: (Seq<char>, Seq<u8>, QoS)| (client_id, m.0, m.1, lower_qos(m.2, granted), true))
}

/// The messages for clients other than `c`, in order.
pub open spec fn not_for(v: Seq<(Seq<char>, Seq<char>, Seq<u8>, QoS, bool)>, c: Seq<char>) -> Seq<(Seq<char>, Seq<char>, Seq<u8>, QoS, bool)>
    decreases v.len(),
{
    if v.len() == 0 {
        v
    } else if v.last().0 == c {
        not_for(v.drop_last(), c)
    } else {
        not_for(v.drop_last(), c).push(v.last())
    }
}

/// The message router: the subscription registry and the retain store.
pub struct MessageRouter {
    /// Subscription registry for topic matching.
    subscriptions: SubscriptionRegistry,
    /// Retained message store.
    retain_store: RetainStore,
}

impl MessageRouter {
    /// The subscription registry.
    pub closed spec fn registry(&self) -> SubscriptionRegistry {
        self.subscriptions
    }

    /// The retain store.
    pub closed spec fn retained(&self) -> RetainStore {
        self.retain_store
    }

    /// Both parts are sound.
    pub open spec fn wf(&self) -> bool {
        self.registry().wf() && self.retained().wf()
    }

    /// A router with no subscription and the default retain limits.
    pub fn new() -> (r: Self)
        ensures
            r.wf(),
            forall|k: Seq<Seq<char>>| r.registry().subscribers_at(k).len() == 0,
            r.registry().clients().len() == 0,
            r.retained().messages().len() == 0,
            r.retained().max_messages() == 10000,
            r.retained().max_payload_size() == 262144,
    {
        MessageRouter { subscriptions: SubscriptionRegistry::new(), retain_store: RetainStore::new() }
    }

    /// A router with custom retain limits.
    pub fn with_retain_limits(max_messages: usize, max_payload_size: usize) -> (r: Self)
        ensures
            r.wf(),
            forall|k: Seq<Seq<char>>| r.registry().subscribers_at(k).len() == 0,
            r.registry().clients().len() == 0,
            r.retained().messages().len() == 0,
            r.retained().max_messages() == max_messages,
            r.retained().max_payload_size() == max_payload_size,
    {
        MessageRouter {
            subscriptions: SubscriptionRegistry::new(),
            retain_store: RetainStore::with_limits(max_messages, max_payload_size),
        }
    }

    /// Subscribe a client to a topic filter. Returns the granted QoS and the
    /// retained messages that match the filter.
    pub fn subscribe(&mut self, client_id: &str, filter: &str, qos: QoS) -> (r: Result<(QoS, Vec<RoutedMessage>), TopicError>)
        requires
            old(self).wf(),
        ensures
            final(self).wf(),
            final(self).retained() == old(self).retained(),
            match spec_validate_topic_filter(filter@) {
                Err(e) => r matches Err(x) && x@ == e && final(self).registry() == old(self).registry(),
                Ok(()) => r matches Ok((granted, msgs)) && granted == qos && subscribe_effect(
                    old(self).registry(),
                    final(self).registry(),
                    client_id@,
                    filter@,
                    qos,
                ) && routed_list(msgs@) == retained_deliveries(
                    matching_messages(old(self).retained().messages(), filter@),
                    client_id@,
                    granted,
                ),
            },
    {
        // Add the subscription
        let granted_qos = match self.subscriptions.subscribe(client_id, filter, qos) {
            Ok(g) => g,
            Err(e) => return Err(e),
        };
        // The matching retained messages
        let retained = self.retain_store.get_matching(filter);
        let ghost rv = messages_view(retained@);
        let mut messages: Vec<RoutedMessage> = Vec::new();
        let mut i: usize = 0;
        while i < retained.len()
            invariant
                i <= retained@.len(),
                rv == messages_view(retained@),
                routed_list(messages@) == retained_deliveries(rv.take(i as int), client_id@, granted_qos),
            decreases retained@.len() - i,
        {
            let msg = &retained[i];
            let ghost before = messages@;
            let routed = RoutedMessage {
                client_id: client_id.to_string(),
                topic: msg.topic.clone(),
                payload: copy_bytes(&msg.payload),
                qos: min_qos(msg.qos, granted_qos),
                is_retained: true,
            };
            assert(routed_view(routed) == (client_id@, rv[i as int].0, rv[i as int].1, lower_qos(rv[i as int].2, granted_qos), true));
            messages.push(routed);
            assert(routed_list(messages@) =~= routed_list(before).push(routed_view(routed)));
            assert(rv.take(i as int + 1) =~= rv.take(i as int).push(rv[i as int]));
            assert(retained_deliveries(rv.take(i as int + 1), client_id@, granted_qos) =~= retained_deliveries(rv.take(i as int), client_id@, granted_qos).push(routed_view(routed)));
            i = i + 1;
        }
        assert(rv.take(rv.len() as int) =~= rv);
        Ok((granted_qos, messages))
    }
}

impl MessageRouter {
    /// Unsubscribe a client from a topic filter.
    pub fn unsubscribe(&mut self, client_id: &str, filter: &str) -> (r: bool)
        requires
            old(self).wf(),
        ensures
            final(self).wf(),
            final(self).retained() == old(self).retained(),
            unsubscribe_effect(old(self).registry(), final(self).registry(), client_id@, filter@, r),
    {
        self.subscriptions.unsubscribe(client_id, filter)
    }

    /// Remove all subscriptions of a client.
    pub fn remove_client(&mut self, client_id: &str) -> (r: Vec<String>)
        requires
            old(self).wf(),
        ensures
            final(self).wf(),
            final(self).retained() == old(self).retained(),
            remove_client_effect(
                old(self).registry(),
                final(self).registry(),
                client_id@,
                crate::topic_matcher::trie::strings_view(r@),
            ),
    {
        self.subscriptions.remove_client(client_id)
    }

    /// Route a published message to all matching subscribers; with `retain`
    /// the message is also stored (or, with an empty payload, deleted) in
    /// the retain store first.
    pub fn route(&mut self, topic: &str, payload: Vec<u8>, qos: QoS, retain: bool) -> (r: Result<RouteResult, RouterError>)
        requires
            old(self).wf(),
        ensures
            final(self).wf(),
            final(self).registry() == old(self).registry(),
            retain ==> final(self).retained().messages() == spec_store(
                old(self).retained().messages(),
                old(self).retained().max_messages(),
                old(self).retained().max_payload_size(),
                topic@,
                payload@,
                qos,
            ).1,
            !retain ==> final(self).retained().messages() == old(self).retained().messages(),
            final(self).retained().max_messages() == old(self).retained().max_messages(),
            final(self).retained().max_payload_size() == old(self).retained().max_payload_size(),
            match r {
                Err(RouterError::Retain(e)) => retain && spec_store(
                    old(self).retained().messages(),
                    old(self).retained().max_messages(),
                    old(self).retained().max_payload_size(),
                    topic@,
                    payload@,
                    qos,
                ).0 == Err::<bool, RetainError>(e),
                Err(RouterError::Topic(_)) => false,
                Ok(res) => {
                    &&& (retain ==> spec_store(
                        old(self).retained().messages(),
                        old(self).retained().max_messages(),
                        old(self).retained().max_payload_size(),
                        topic@,
                        payload@,
                        qos,
                    ).0 is Ok)
                    &&& res.retained == retain
                    &&& routed_list(res.messages@) == deliveries(
                        merge_highest(flatten_sets(old(self).registry().matched_sets(split_levels(topic@)))),
                        topic@,
                        payload@,
                        qos,
                    )
                    &&& res.subscriber_count == res.messages@.len()
                },
            },
    {
        // Retain
        let retained = if retain {
            match self.retain_store.store(topic, copy_bytes(&payload), qos) {
                Ok(_) => true,
                Err(e) => return Err(RouterError::Retain(e)),
            }
        } else {
            false
        };
        // All matching subscribers
        let subscribers = self.subscriptions.get_subscribers(topic);
        let subscriber_count = subscribers.len();
        let ghost subs = entries_view(subscribers@);
        let mut messages: Vec<RoutedMessage> = Vec::new();
        let mut i: usize = 0;
        while i < subscribers.len()
            invariant
                i <= subscribers@.len(),
                subs == entries_view(subscribers@),
                routed_list(messages@) == deliveries(subs.take(i as int), topic@, payload@, qos),
            decreases subscribers@.len() - i,
        {
            let ghost before = messages@;
            let routed = RoutedMessage {
                client_id: subscribers[i].0.clone(),
                topic: topic.to_string(),
                payload: copy_bytes(&payload),
                qos: min_qos(qos, subscribers[i].1),
                is_retained: false,
            };
            messages.push(routed);
            assert(routed_list(messages@) =~= routed_list(before).push(routed_view(routed)));
            assert(subs.take(i as int + 1) =~= subs.take(i as int).push(subs[i as int]));
            assert(deliveries(subs.take(i as int + 1), topic@, payload@, qos) =~= deliveries(subs.take(i as int), topic@, payload@, qos).push(routed_view(routed)));
            i = i + 1;
        }
        assert(subs.take(subs.len() as int) =~= subs);
        Ok(RouteResult { messages, retained, subscriber_count })
    }

    /// Route a published message, leaving out the messages for one client
    /// (the sender).
    pub fn route_excluding(
        &mut self,
        topic: &str,
        payload: Vec<u8>,
        qos: QoS,
        retain: bool,
        exclude_client: &str,
    ) -> (r: Result<RouteResult, RouterError>)
        requires
            old(self).wf(),
        ensures
            final(self).wf(),
            final(self).registry() == old(self).registry(),
            retain ==> final(self).retained().messages() == spec_store(
                old(self).retained().messages(),
                old(self).retained().max_messages(),
                old(self).retained().max_payload_size(),
                topic@,
                payload@,
                qos,
            ).1,
            !retain ==> final(self).retained().messages() == old(self).retained().messages(),
            final(self).retained().max_messages() == old(self).retained().max_messages(),
            final(self).retained().max_payload_size() == old(self).retained().max_payload_size(),
            match r {
                Err(RouterError::Retain(e)) => retain && spec_store(
                    old(self).retained().messages(),
                    old(self).retained().max_messages(),
                    old(self).retained().max_payload_size(),
                    topic@,
                    payload@,
                    qos,
                ).0 == Err::<bool, RetainError>(e),
                Err(RouterError::Topic(_)) => false,
                Ok(res) => {
                    &&& (retain ==> spec_store(
                        old(self).retained().messages(),
                        old(self).retained().max_messages(),
                        old(self).retained().max_payload_size(),
                        topic@,
                        payload@,
                        qos,
                    ).0 is Ok)
                    &&& res.retained == retain
                    &&& routed_list(res.messages@) == not_for(
                        deliveries(
                            merge_highest(flatten_sets(old(self).registry().matched_sets(split_levels(topic@)))),
                            topic@,
                            payload@,
                            qos,
                        ),
                        exclude_client@,
                    )
                    &&& res.subscriber_count == res.messages@.len()
                },
            },
    {
        let result = self.route(topic, payload, qos, retain);
        let result = match result {
            Ok(res) => res,
            Err(e) => return Err(e),
        };
        let ghost all = routed_list(result.messages@);
        let mut kept: Vec<RoutedMessage> = Vec::new();
        let mut i: usize = 0;
        assert(all.take(0) =~= Seq::<(Seq<char>, Seq<char>, Seq<u8>, QoS, bool)>::empty());
        while i < result.messages.len()
            invariant
                i <= result.messages@.len(),
                all == routed_list(result.messages@),
                routed_list(kept@) == not_for(all.take(i as int), exclude_client@),
            decreases result.messages@.len() - i,
        {
            assert(all.take(i as int + 1).drop_last() =~= all.take(i as int));
            if !str_equal(result.messages[i].client_id.as_str(), exclude_client) {
                let ghost before = kept@;
                let m = RoutedMessage {
                    client_id: result.messages[i].client_id.clone(),
                    topic: result.messages[i].topic.clone(),
                    payload: copy_bytes(&result.messages[i].payload),
                    qos: result.messages[i].qos,
                    is_retained: result.messages[i].is_retained,
                };
                kept.push(m);
                assert(routed_list(kept@) =~= routed_list(before).push(all[i as int]));
            }
            i = i + 1;
        }
        assert(all.take(all.len() as int) =~= all);
        let subscriber_count = kept.len();
        Ok(RouteResult { messages: kept, retained: result.retained, subscriber_count })
    }

    /// The subscription registry.
    pub fn subscriptions(&self) -> (r: &SubscriptionRegistry)
        ensures
            *r == self.registry(),
    {
        &self.subscriptions
    }

    /// The retain store.
    pub fn retain_store(&self) -> (r: &RetainStore)
        ensures
            *r == self.retained(),
    {
        &self.retain_store
    }

    /// Router statistics.
    pub fn stats(&self) -> (r: RouterStats)
        ensures
            r.subscription_count == crate::topic_matcher::trie::capped_usize(
                crate::router::registry::total_entries(self.registry().stored_sets()),
            ),
            r.client_count == self.registry().clients().len(),
            r.retained_message_count == self.retained().messages().len(),
            r.retained_payload_bytes == crate::topic_matcher::trie::capped_usize(
                crate::router::retain::payload_total(self.retained().messages()),
            ),
    {
        RouterStats {
            subscription_count: self.subscriptions.subscription_count(),
            client_count: self.subscriptions.client_count(),
            retained_message_count: self.retain_store.count(),
            retained_payload_bytes: self.retain_store.total_payload_size(),
        }
    }
}

impl Default for MessageRouter {
    fn default() -> (r: Self)
        ensures
            r.wf(),
            forall|k: Seq<Seq<char>>| r.registry().subscribers_at(k).len() == 0,
            r.registry().clients().len() == 0,
            r.retained().messages().len() == 0,
    {
        MessageRouter::new()
    }
}

} // verus!
