//! The packet handler: what the broker does with each packet a client sends,
//! and what it answers.

use vstd::prelude::*;

use crate::buf::{bytes_copy_from_slice, bytes_seq};
use crate::codec::packet::{
    ConnAck, ConnectView, Packet, PacketView, PubAck, PubComp, PubRec, PubRel, Publish, PublishView,
    SubAck, SubscribeView, UnsubAck, UnsubscribeView,
};
use crate::codec::types::{qos_value, suback_code_value, ConnectReturnCode, QoS, SubAckCode, SubscriptionView};
use crate::router::registry::{
    key_index, keys_unique, lemma_key_index, recorded_filters, remove_client_effect, subscribe_effect, unsubscribe_effect, SubscriptionRegistry,
};
use crate::router::retain::{matching_messages, retain_error_message, spec_store};
use crate::router::router::{retained_deliveries, routed_list, MessageRouter, RouterError};
use crate::server::client::{auto_id, Client, ClientState, ClientStats};
use crate::session::session::{
    puback_effect, pubcomp_effect, pubrec_effect, pubrel_effect, spec_subscribe, spec_unsubscribe,
};
use crate::strings::str_equal;
use crate::topic_matcher::validation::spec_validate_topic_filter;

verus! {

/// The result of handling a packet.
#[derive(Debug)]
pub enum HandleResult {
    /// Send a response packet.
    Response(Packet),
    /// Send several response packets.
    Responses(Vec<Packet>),
    /// No response.
    NoResponse,
    /// Disconnect the client.
    Disconnect,
    /// A protocol error: disconnect, for the reason given.
    Error(String),
}

/// The result of handling a packet, as plain values.
pub enum HandleResultView {
    Response(PacketView),
    Responses(Seq<PacketView>),
    NoResponse,
    Disconnect,
    Error(Seq<char>),
}

/// Packets, as plain values.
pub open spec fn packets_view(v: Seq<Packet>) -> Seq<PacketView> {
    v.map_values(|p: Packet| p@)
}

impl View for HandleResult {
    type V = HandleResultView;

    open spec fn view(&self) -> HandleResultView {
        match self {
            HandleResult::Response(p) => HandleResultView::Response(p@),
            HandleResult::Responses(v) => HandleResultView::Responses(packets_view(v@)),
            HandleResult::NoResponse => HandleResultView::NoResponse,
            HandleResult::Disconnect => HandleResultView::Disconnect,
            HandleResult::Error(m) => HandleResultView::Error(m@),
        }
    }
}

/// What a connection does with a handling result: the packets to send, in
/// order, and whether to disconnect afterwards (on a DISCONNECT, and on a
/// protocol error).
pub fn response_plan(result: HandleResult) -> (r: (Vec<Packet>, bool))
    ensures
        match result@ {
            HandleResultView::Response(p) => packets_view(r.0@) == seq![p] && !r.1,
            HandleResultView::Responses(v) => packets_view(r.0@) == v && !r.1,
            HandleResultView::NoResponse => r.0@.len() == 0 && !r.1,
            HandleResultView::Disconnect => r.0@.len() == 0 && r.1,
            HandleResultView::Error(_) => r.0@.len() == 0 && r.1,
        },
{
    match result {
        HandleResult::Response(packet) => {
            let mut v: Vec<Packet> = Vec::new();
            let ghost pv = packet@;
            v.push(packet);
            assert(packets_view(v@) =~= seq![pv]);
            (v, false)
        },
        HandleResult::Responses(packets) => (packets, false),
        HandleResult::NoResponse => (Vec::new(), false),
        HandleResult::Disconnect => (Vec::new(), true),
        HandleResult::Error(_) => (Vec::new(), true),
    }
}

/// `c1` is `c0` with only its last activity changed.
pub open spec fn just_touched(c0: Client, c1: Client) -> bool {
    c1 == (Client { last_activity: c1.last_activity, ..c0 })
}

/// A CONNACK that refuses or accepts a connection.
pub open spec fn connack(code: ConnectReturnCode) -> HandleResultView {
    HandleResultView::Response(PacketView::ConnAck(ConnAck { session_present: false, return_code: code }))
}

/// Handling CONNECT `cv`: refused in any state but connecting; answered
/// with "unacceptable protocol version" for anything but MQTT 3.1.1, with
/// "identifier rejected" for an empty client identifier without a clean
/// session; else the client is initialized (an empty identifier replaced by
/// that of the next anonymous client) and accepted.
pub open spec fn connect_handled(
    h0: PacketHandler,
    h1: PacketHandler,
    c0: Client,
    c1: Client,
    cv: ConnectView,
    r: HandleResultView,
) -> bool {
    if c0.state != ClientState::Connecting {
        &&& r == HandleResultView::Error("CONNECT received in wrong state"@)
        &&& h1 == h0
        &&& just_touched(c0, c1)
    } else if cv.protocol_name != "MQTT"@ || cv.protocol_level != 4 {
        &&& r == connack(ConnectReturnCode::UnacceptableProtocolVersion)
        &&& h1 == h0
        &&& just_touched(c0, c1)
    } else if cv.client_id.len() == 0 && !cv.flags.clean_session {
        &&& r == connack(ConnectReturnCode::IdentifierRejected)
        &&& h1 == h0
        &&& just_touched(c0, c1)
    } else {
        &&& r == connack(ConnectReturnCode::Accepted)
        &&& h1.routing() == h0.routing()
        &&& h1.next_anonymous() == if cv.client_id.len() == 0 {
            if h0.next_anonymous() == u64::MAX {
                0
            } else {
                (h0.next_anonymous() + 1) as u64
            }
        } else {
            h0.next_anonymous()
        }
        &&& c1.client_id@ == if cv.client_id.len() == 0 {
            auto_id(h0.next_anonymous())
        } else {
            cv.client_id
        }
        &&& c1.state == ClientState::Connected
        &&& c1.clean_session == cv.flags.clean_session
        &&& c1.keep_alive == cv.keep_alive
        &&& match c1.username {
            Some(u) => cv.username == Some(u@),
            None => cv.username is None,
        }
        &&& c1.connected_at is Some
        &&& c1.stats == c0.stats
        &&& c1.session.wf()
        &&& c1.session.client() == c1.client_id@
        &&& c1.session.clean() == cv.flags.clean_session
        &&& c1.session.subs().len() == 0
        &&& c1.session.qos1().len() == 0
        &&& c1.session.qos2_out().len() == 0
        &&& c1.session.qos2_in().len() == 0
        &&& c1.session.queue().len() == 0
    }
}

/// The answer to a routed PUBLISH: nothing for QoS 0, PUBACK for QoS 1,
/// PUBREC for QoS 2 (an error without a packet identifier).
pub open spec fn publish_reply(p: PublishView) -> HandleResultView {
    match p.qos {
        QoS::AtMostOnce => HandleResultView::NoResponse,
        QoS::AtLeastOnce => match p.packet_id {
            Some(id) => HandleResultView::Response(PacketView::PubAck(PubAck { packet_id: id })),
            None => HandleResultView::Error("QoS 1 publish missing packet ID"@),
        },
        QoS::ExactlyOnce => match p.packet_id {
            Some(id) => HandleResultView::Response(PacketView::PubRec(PubRec { packet_id: id })),
            None => HandleResultView::Error("QoS 2 publish missing packet ID"@),
        },
    }
}

/// Handling PUBLISH `p`: refused unless connected; else counted and routed
/// (a retained message is stored first, which may fail), then acknowledged
/// as its QoS asks.
pub open spec fn publish_handled(
    h0: PacketHandler,
    h1: PacketHandler,
    c0: Client,
    c1: Client,
    p: PublishView,
    r: HandleResultView,
) -> bool {
    if c0.state != ClientState::Connected {
        &&& r == HandleResultView::Error("Not connected"@)
        &&& h1 == h0
        &&& just_touched(c0, c1)
    } else {
        let rs = h0.routing().retained();
        let store = spec_store(rs.messages(), rs.max_messages(), rs.max_payload_size(), p.topic, p.payload, p.qos);
        &&& c1 == (Client {
            stats: ClientStats { messages_published: (c0.stats.messages_published + 1) as u64, ..c0.stats },
            last_activity: c1.last_activity,
            ..c0
        })
        &&& h1.next_anonymous() == h0.next_anonymous()
        &&& h1.routing().registry() == h0.routing().registry()
        &&& h1.routing().retained().messages() == if p.retain {
            store.1
        } else {
            rs.messages()
        }
        &&& h1.routing().retained().max_messages() == rs.max_messages()
        &&& h1.routing().retained().max_payload_size() == rs.max_payload_size()
        &&& r == if p.retain && store.0 is Err {
            HandleResultView::Error("Route error: "@ + ("Retain error: "@ + retain_error_message(store.0->Err_0)))
        } else {
            publish_reply(p)
        }
    }
}

/// Handling an acknowledgment of a QoS flow: refused unless connected; else
/// the session's flow moves on (`effect`), and `reply` is answered.
pub open spec fn ack_handled(
    h0: PacketHandler,
    h1: PacketHandler,
    c0: Client,
    c1: Client,
    effect: bool,
    reply: HandleResultView,
    r: HandleResultView,
) -> bool {
    &&& h1 == h0
    &&& if c0.state != ClientState::Connected {
        &&& r == HandleResultView::Error("Not connected"@)
        &&& just_touched(c0, c1)
    } else {
        &&& r == reply
        &&& effect
        &&& c1.session.wf()
        &&& c1 == (Client { session: c1.session, last_activity: c1.last_activity, ..c0 })
    }
}

/// Whether a topic filter is valid.
pub open spec fn filter_valid(f: Seq<char>) -> bool {
    spec_validate_topic_filter(f) is Ok
}

/// The SUBACK return code for a subscription request.
pub open spec fn suback_code(s: SubscriptionView) -> SubAckCode {
    if filter_valid(s.topic_filter) {
        match s.qos {
            QoS::AtMostOnce => SubAckCode::SuccessQoS0,
            QoS::AtLeastOnce => SubAckCode::SuccessQoS1,
            QoS::ExactlyOnce => SubAckCode::SuccessQoS2,
        }
    } else {
        SubAckCode::Failure
    }
}

/// The SUBACK return codes for subscription requests, in order.
pub open spec fn suback_codes(subs: Seq<SubscriptionView>) -> Seq<SubAckCode>
    decreases subs.len(),
{
    if subs.len() == 0 {
        Seq::empty()
    } else {
        suback_codes(subs.drop_last()).push(suback_code(subs.last()))
    }
}

/// A session's subscriptions after the valid requests are added.
pub open spec fn subscribed_all(s: Seq<(Seq<char>, QoS)>, subs: Seq<SubscriptionView>) -> Seq<(Seq<char>, QoS)>
    decreases subs.len(),
{
    if subs.len() == 0 {
        s
    } else {
        let before = subscribed_all(s, subs.drop_last());
        if filter_valid(subs.last().topic_filter) {
            spec_subscribe(before, subs.last().topic_filter, subs.last().qos)
        } else {
            before
        }
    }
}

/// A retained message, sent on subscribe: QoS 0, with the retain flag.
pub open spec fn retained_publish(m: (Seq<char>, Seq<u8>, QoS)) -> PacketView {
    PacketView::Publish(
        PublishView {
            dup: false,
            qos: QoS::AtMostOnce,
            retain: true,
            topic: m.0,
            packet_id: None,
            payload: m.1,
        },
    )
}

/// Retained messages, sent on subscribe.
pub open spec fn retained_publish_all(ms: Seq<(Seq<char>, Seq<u8>, QoS)>) -> Seq<PacketView> {
    ms.map_values(|m: (Seq<char>, Seq<u8>, QoS)| retained_publish(m))
}

/// The retained messages sent for the valid requests, request by request.
pub open spec fn retained_publishes(
    retained: Seq<(Seq<char>, Seq<u8>, QoS)>,
    subs: Seq<SubscriptionView>,
) -> Seq<PacketView>
    decreases subs.len(),
{
    if subs.len() == 0 {
        Seq::empty()
    } else {
        let before = retained_publishes(retained, subs.drop_last());
        if filter_valid(subs.last().topic_filter) {
            before + retained_publish_all(matching_messages(retained, subs.last().topic_filter))
        } else {
            before
        }
    }
}

/// The registries `regs` are those that subscribing client `c` to the
/// requests `subs` passes through, one request after the other.
pub open spec fn subscribe_chain(
    regs: Seq<SubscriptionRegistry>,
    c: Seq<char>,
    subs: Seq<SubscriptionView>,
) -> bool {
    &&& regs.len() == subs.len() + 1
    &&& forall|j: int|
        0 <= j < subs.len() ==> if filter_valid(#[trigger] subs[j].topic_filter) {
            subscribe_effect(regs[j], regs[j + 1], c, subs[j].topic_filter, subs[j].qos)
        } else {
            regs[j + 1] == regs[j]
        }
}

/// Handling SUBSCRIBE `sv`: refused unless connected; else each valid
/// request subscribes the client (in the router and in its session), and
/// the answer is the SUBACK followed by the retained messages that match.
pub open spec fn subscribe_handled(
    h0: PacketHandler,
    h1: PacketHandler,
    c0: Client,
    c1: Client,
    sv: SubscribeView,
    r: HandleResultView,
) -> bool {
    if c0.state != ClientState::Connected {
        &&& r == HandleResultView::Error("Not connected"@)
        &&& h1 == h0
        &&& just_touched(c0, c1)
    } else {
        let suback = PacketView::SubAck(
            crate::codec::packet::SubAckView { packet_id: sv.packet_id, return_codes: suback_codes(sv.subscriptions) },
        );
        let pubs = retained_publishes(h0.routing().retained().messages(), sv.subscriptions);
        &&& exists|regs: Seq<SubscriptionRegistry>|
            #![trigger subscribe_chain(regs, c0.client_id@, sv.subscriptions)]
            subscribe_chain(regs, c0.client_id@, sv.subscriptions) && regs[0] == h0.routing().registry()
                && regs.last() == h1.routing().registry()
        &&& h1.routing().retained() == h0.routing().retained()
        &&& h1.next_anonymous() == h0.next_anonymous()
        &&& c1.session.wf()
        &&& c1.session.subs() == subscribed_all(c0.session.subs(), sv.subscriptions)
        &&& c1.session.same_identity(&c0.session)
        &&& c1.session.same_flows(&c0.session)
        &&& c1.session.allocator() == c0.session.allocator()
        &&& c1.session.queue() == c0.session.queue()
        &&& c1 == (Client { session: c1.session, last_activity: c1.last_activity, ..c0 })
        &&& r == if pubs.len() == 0 {
            HandleResultView::Response(suback)
        } else {
            HandleResultView::Responses(seq![suback] + pubs)
        }
    }
}

/// A session's subscriptions after the filters are removed.
pub open spec fn unsubscribed_all(s: Seq<(Seq<char>, QoS)>, fs: Seq<Seq<char>>) -> Seq<(Seq<char>, QoS)>
    decreases fs.len(),
{
    if fs.len() == 0 {
        s
    } else {
        spec_unsubscribe(unsubscribed_all(s, fs.drop_last()), fs.last())
    }
}

/// The registries `regs` are those that unsubscribing client `c` from the
/// filters `fs` passes through (`was`: whether it was subscribed to each).
pub open spec fn unsubscribe_chain(
    regs: Seq<SubscriptionRegistry>,
    was: Seq<bool>,
    c: Seq<char>,
    fs: Seq<Seq<char>>,
) -> bool {
    &&& regs.len() == fs.len() + 1
    &&& was.len() == fs.len()
    &&& forall|j: int| 0 <= j < fs.len() ==> unsubscribe_effect(regs[j], regs[j + 1], c, #[trigger] fs[j], was[j])
}

/// Handling UNSUBSCRIBE `uv`: refused unless connected; else the client is
/// unsubscribed from each filter (in the router and in its session), and
/// UNSUBACK answered.
pub open spec fn unsubscribe_handled(
    h0: PacketHandler,
    h1: PacketHandler,
    c0: Client,
    c1: Client,
    uv: UnsubscribeView,
    r: HandleResultView,
) -> bool {
    if c0.state != ClientState::Connected {
        &&& r == HandleResultView::Error("Not connected"@)
        &&& h1 == h0
        &&& just_touched(c0, c1)
    } else {
        &&& exists|regs: Seq<SubscriptionRegistry>, was: Seq<bool>|
            #![trigger unsubscribe_chain(regs, was, c0.client_id@, uv.topic_filters)]
            unsubscribe_chain(regs, was, c0.client_id@, uv.topic_filters) && regs[0] == h0.routing().registry()
                && regs.last() == h1.routing().registry()
        &&& h1.routing().retained() == h0.routing().retained()
        &&& h1.next_anonymous() == h0.next_anonymous()
        &&& c1.session.wf()
        &&& c1.session.subs() == unsubscribed_all(c0.session.subs(), uv.topic_filters)
        &&& c1.session.same_identity(&c0.session)
        &&& c1.session.same_flows(&c0.session)
        &&& c1.session.allocator() == c0.session.allocator()
        &&& c1.session.queue() == c0.session.queue()
        &&& c1 == (Client { session: c1.session, last_activity: c1.last_activity, ..c0 })
        &&& r == HandleResultView::Response(PacketView::UnsubAck(UnsubAck { packet_id: uv.packet_id }))
    }
}

/// Handling DISCONNECT: the client is disconnecting, and with a clean
/// session its subscriptions are removed.
pub open spec fn disconnect_handled(h0: PacketHandler, h1: PacketHandler, c0: Client, c1: Client, r: HandleResultView) -> bool {
    &&& r == HandleResultView::Disconnect
    &&& c1 == (Client { state: ClientState::Disconnecting, last_activity: c1.last_activity, ..c0 })
    &&& h1.next_anonymous() == h0.next_anonymous()
    &&& if c0.clean_session {
        &&& remove_client_effect(
            h0.routing().registry(),
            h1.routing().registry(),
            c0.client_id@,
            recorded_filters(h0.routing().registry().clients(), c0.client_id@),
        )
        &&& h1.routing().retained() == h0.routing().retained()
    } else {
        h1.routing() == h0.routing()
    }
}

/// What handling `packet` from client `c0` does: the handler goes from `h0`
/// to `h1`, the client to `c1`, and the result is `r`.
pub open spec fn packet_handled(
    h0: PacketHandler,
    h1: PacketHandler,
    c0: Client,
    c1: Client,
    packet: Packet,
    r: HandleResultView,
) -> bool {
    match packet {
        Packet::Connect(c) => connect_handled(h0, h1, c0, c1, c@, r),
        Packet::Publish(p) => publish_handled(h0, h1, c0, c1, p@, r),
        Packet::PubAck(a) => ack_handled(
            h0,
            h1,
            c0,
            c1,
            puback_effect(c0.session, c1.session, a.packet_id),
            HandleResultView::NoResponse,
            r,
        ),
        Packet::PubRec(a) => ack_handled(
            h0,
            h1,
            c0,
            c1,
            pubrec_effect(c0.session, c1.session, a.packet_id),
            HandleResultView::Response(PacketView::PubRel(PubRel { packet_id: a.packet_id })),
            r,
        ),
        Packet::PubRel(a) => ack_handled(
            h0,
            h1,
            c0,
            c1,
            pubrel_effect(c0.session, c1.session, a.packet_id),
            HandleResultView::Response(PacketView::PubComp(PubComp { packet_id: a.packet_id })),
            r,
        ),
        Packet::PubComp(a) => ack_handled(
            h0,
            h1,
            c0,
            c1,
            pubcomp_effect(c0.session, c1.session, a.packet_id),
            HandleResultView::NoResponse,
            r,
        ),
        Packet::Subscribe(s) => subscribe_handled(h0, h1, c0, c1, s@, r),
        Packet::Unsubscribe(u) => unsubscribe_handled(
            h0,
            h1,
            c0,
            c1,
            u@,
            r,
        ),
        Packet::PingReq => {
            &&& h1 == h0
            &&& just_touched(c0, c1)
            &&& r == if c0.state == ClientState::Connected {
                HandleResultView::Response(PacketView::PingResp)
            } else {
                HandleResultView::Error("Not connected"@)
            }
        },
        Packet::Disconnect => disconnect_handled(h0, h1, c0, c1, r),
        _ => {
            &&& h1 == h0
            &&& just_touched(c0, c1)
            &&& r == HandleResultView::Error("Unexpected packet type from client"@)
        },
    }
}

/// Packet handler: processes the packets clients send, with the message
/// router, and numbers the clients that connect without an identifier.
pub struct PacketHandler {
    /// The message router.
    router: MessageRouter,
    /// The number of the next client that connects without an identifier.
    next_anonymous: u64,
}

impl PacketHandler {
    /// The message router.
    pub closed spec fn routing(&self) -> MessageRouter {
        self.router
    }

    /// The number of the next client that connects without an identifier.
    pub closed spec fn next_anonymous(&self) -> u64 {
        self.next_anonymous
    }

    /// The handler's invariant: that of its router.
    pub open spec fn wf(&self) -> bool {
        self.routing().wf()
    }

    /// A handler with the given router; anonymous clients are numbered from
    /// 1.
    pub fn new(router: MessageRouter) -> (r: Self)
        ensures
            r.routing() == router,
            r.next_anonymous() == 1,
    {
        PacketHandler { router, next_anonymous: 1 }
    }

    /// The message router.
    pub fn router(&self) -> (r: &MessageRouter)
        ensures
            *r == self.routing(),
    {
        &self.router
    }

    /// Handle a packet from a client (its activity is recorded first).
    pub fn handle(&mut self, client: &mut Client, packet: Packet) -> (r: HandleResult)
        requires
            old(self).wf(),
            old(client).session.wf(),
            old(client).stats.messages_published < u64::MAX,
        ensures
            final(self).wf(),
            final(client).session.wf(),
            packet_handled(*old(self), *final(self), *old(client), *final(client), packet, r@),
    {
        // Record the activity
        client.touch();
        match packet {
            Packet::Connect(connect) => self.handle_connect(client, connect),
            Packet::Publish(publish) => self.handle_publish(client, publish),
            Packet::PubAck(puback) => self.handle_puback(client, puback),
            Packet::PubRec(pubrec) => self.handle_pubrec(client, pubrec),
            Packet::PubRel(pubrel) => self.handle_pubrel(client, pubrel),
            Packet::PubComp(pubcomp) => self.handle_pubcomp(client, pubcomp),
            Packet::Subscribe(subscribe) => self.handle_subscribe(client, subscribe),
            Packet::Unsubscribe(unsubscribe) => self.handle_unsubscribe(client, unsubscribe),
            Packet::PingReq => self.handle_pingreq(client),
            Packet::Disconnect => self.handle_disconnect(client),
            // A server does not receive these
            Packet::ConnAck(_) | Packet::SubAck(_) | Packet::UnsubAck(_) | Packet::PingResp => {
                HandleResult::Error("Unexpected packet type from client".to_string())
            },
        }
    }
}

impl PacketHandler {
    /// Handle CONNECT.
    fn handle_connect(&mut self, client: &mut Client, connect: crate::codec::packet::Connect) -> (r: HandleResult)
        requires
            old(self).wf(),
            old(client).session.wf(),
        ensures
            final(self).wf(),
            final(client).session.wf(),
            connect_handled(*old(self), *final(self), *old(client), *final(client), connect@, r@),
    {
        // Only while connecting
        if !client.is_connecting() {
            return HandleResult::Error("CONNECT received in wrong state".to_string());
        }
        // MQTT 3.1.1 only
        proof {
            reveal_strlit("MQTT");
        }
        if !str_equal(connect.protocol_name.as_str(), "MQTT") || connect.protocol_level != 4 {
            return HandleResult::Response(
                Packet::ConnAck(ConnAck { session_present: false, return_code: ConnectReturnCode::UnacceptableProtocolVersion }),
            );
        }
        // An empty client identifier needs a clean session
        let client_id = connect.client_id;
        if client_id.as_str().is_empty() && !connect.flags.clean_session {
            return HandleResult::Response(
                Packet::ConnAck(ConnAck { session_present: false, return_code: ConnectReturnCode::IdentifierRejected }),
            );
        }
        // The number of an anonymous client
        let number = self.next_anonymous;
        if client_id.as_str().is_empty() {
            self.next_anonymous = if self.next_anonymous == u64::MAX { 0 } else { self.next_anonymous + 1 };
        }
        client.initialize(client_id, connect.flags.clean_session, connect.keep_alive, connect.username, number);
        HandleResult::Response(
            Packet::ConnAck(ConnAck { session_present: false, return_code: ConnectReturnCode::Accepted }),
        )
    }

    /// Handle PUBLISH.
    fn handle_publish(&mut self, client: &mut Client, publish: Publish) -> (r: HandleResult)
        requires
            old(self).wf(),
            old(client).session.wf(),
            old(client).stats.messages_published < u64::MAX,
        ensures
            final(self).wf(),
            final(client).session.wf(),
            publish_handled(*old(self), *final(self), *old(client), *final(client), publish@, r@),
    {
        if !client.is_connected() {
            return HandleResult::Error("Not connected".to_string());
        }
        client.stats.record_publish();
        // Route the message
        let payload = vstd::slice::slice_to_vec(crate::buf::bytes_as_slice(&publish.payload));
        let route_result = self.router.route(publish.topic.as_str(), payload, publish.qos, publish.retain);
        match route_result {
            Ok(_) => {
                // Acknowledge as the QoS asks
                match publish.qos {
                    QoS::AtMostOnce => HandleResult::NoResponse,
                    QoS::AtLeastOnce => match publish.packet_id {
                        Some(packet_id) => HandleResult::Response(Packet::PubAck(PubAck { packet_id })),
                        None => HandleResult::Error("QoS 1 publish missing packet ID".to_string()),
                    },
                    QoS::ExactlyOnce => match publish.packet_id {
                        Some(packet_id) => HandleResult::Response(Packet::PubRec(PubRec { packet_id })),
                        None => HandleResult::Error("QoS 2 publish missing packet ID".to_string()),
                    },
                }
            },
            Err(e) => {
                let mut m = "Route error: ".to_string();
                let em = e.message();
                m.append(em.as_str());
                HandleResult::Error(m)
            },
        }
    }

    /// Handle PUBACK (QoS 1 acknowledgment from the client).
    fn handle_puback(&mut self, client: &mut Client, puback: PubAck) -> (r: HandleResult)
        requires
            old(self).wf(),
            old(client).session.wf(),
        ensures
            final(self).wf(),
            final(client).session.wf(),
            ack_handled(
                *old(self),
                *final(self),
                *old(client),
                *final(client),
                puback_effect(old(client).session, final(client).session, puback.packet_id),
                HandleResultView::NoResponse,
                r@,
            ),
    {
        if !client.is_connected() {
            return HandleResult::Error("Not connected".to_string());
        }
        // The QoS 1 outbound flow completes
        let _ = client.session.on_puback(puback.packet_id);
        HandleResult::NoResponse
    }

    /// Handle PUBREC (QoS 2, step 2, from the client).
    fn handle_pubrec(&mut self, client: &mut Client, pubrec: PubRec) -> (r: HandleResult)
        requires
            old(self).wf(),
            old(client).session.wf(),
        ensures
            final(self).wf(),
            final(client).session.wf(),
            ack_handled(
                *old(self),
                *final(self),
                *old(client),
                *final(client),
                pubrec_effect(old(client).session, final(client).session, pubrec.packet_id),
                HandleResultView::Response(PacketView::PubRel(PubRel { packet_id: pubrec.packet_id })),
                r@,
            ),
    {
        if !client.is_connected() {
            return HandleResult::Error("Not connected".to_string());
        }
        // The QoS 2 outbound flow moves on; PUBREL is sent either way
        if client.session.on_pubrec(pubrec.packet_id).is_ok() {
            HandleResult::Response(Packet::PubRel(PubRel { packet_id: pubrec.packet_id }))
        } else {
            HandleResult::Response(Packet::PubRel(PubRel { packet_id: pubrec.packet_id }))
        }
    }

    /// Handle PUBREL (QoS 2, step 3, from the client).
    fn handle_pubrel(&mut self, client: &mut Client, pubrel: PubRel) -> (r: HandleResult)
        requires
            old(self).wf(),
            old(client).session.wf(),
        ensures
            final(self).wf(),
            final(client).session.wf(),
            ack_handled(
                *old(self),
                *final(self),
                *old(client),
                *final(client),
                pubrel_effect(old(client).session, final(client).session, pubrel.packet_id),
                HandleResultView::Response(PacketView::PubComp(PubComp { packet_id: pubrel.packet_id })),
                r@,
            ),
    {
        if !client.is_connected() {
            return HandleResult::Error("Not connected".to_string());
        }
        // The QoS 2 inbound flow completes
        let _ = client.session.on_pubrel(pubrel.packet_id);
        HandleResult::Response(Packet::PubComp(PubComp { packet_id: pubrel.packet_id }))
    }

    /// Handle PUBCOMP (QoS 2, step 4, from the client).
    fn handle_pubcomp(&mut self, client: &mut Client, pubcomp: PubComp) -> (r: HandleResult)
        requires
            old(self).wf(),
            old(client).session.wf(),
        ensures
            final(self).wf(),
            final(client).session.wf(),
            ack_handled(
                *old(self),
                *final(self),
                *old(client),
                *final(client),
                pubcomp_effect(old(client).session, final(client).session, pubcomp.packet_id),
                HandleResultView::NoResponse,
                r@,
            ),
    {
        if !client.is_connected() {
            return HandleResult::Error("Not connected".to_string());
        }
        // The QoS 2 outbound flow completes
        let _ = client.session.on_pubcomp(pubcomp.packet_id);
        HandleResult::NoResponse
    }

    /// Handle PINGREQ.
    fn handle_pingreq(&mut self, client: &mut Client) -> (r: HandleResult)
        ensures
            *final(self) == *old(self),
            *final(client) == *old(client),
            r@ == if old(client).state == ClientState::Connected {
                HandleResultView::Response(PacketView::PingResp)
            } else {
                HandleResultView::Error("Not connected"@)
            },
    {
        if !client.is_connected() {
            return HandleResult::Error("Not connected".to_string());
        }
        HandleResult::Response(Packet::PingResp)
    }

    /// Handle DISCONNECT.
    fn handle_disconnect(&mut self, client: &mut Client) -> (r: HandleResult)
        requires
            old(self).wf(),
            old(client).session.wf(),
        ensures
            final(self).wf(),
            final(client).session.wf(),
            disconnect_handled(*old(self), *final(self), *old(client), *final(client), r@),
    {
        // A clean disconnect from the client
        client.disconnect();
        // With a clean session its subscriptions go
        if client.clean_session {
            self.router.remove_client(client.client_id.as_str());
        }
        HandleResult::Disconnect
    }
}

impl PacketHandler {
    /// Handle SUBSCRIBE.
    fn handle_subscribe(&mut self, client: &mut Client, subscribe: crate::codec::packet::Subscribe) -> (r: HandleResult)
        requires
            old(self).wf(),
            old(client).session.wf(),
        ensures
            final(self).wf(),
            final(client).session.wf(),
            subscribe_handled(*old(self), *final(self), *old(client), *final(client), subscribe@, r@),
    {
        if !client.is_connected() {
            return HandleResult::Error("Not connected".to_string());
        }
        let ghost subs = subscribe@.subscriptions;
        let ghost c = client.client_id@;
        let ghost retained = self.router.retained().messages();
        let ghost s0 = client.session.subs();
        let mut return_codes: Vec<SubAckCode> = Vec::new();
        let mut responses: Vec<Packet> = Vec::new();
        let ghost mut regs: Seq<SubscriptionRegistry> = seq![self.router.registry()];
        let mut i: usize = 0;
        proof {
            assert(subs.take(0) =~= Seq::<SubscriptionView>::empty());
            assert(packets_view(responses@) =~= Seq::<PacketView>::empty());
        }
        while i < subscribe.subscriptions.len()
            invariant
                subs == subscribe@.subscriptions,
                i <= subs.len(),
                self.wf(),
                self.router.retained() == old(self).routing().retained(),
                self.next_anonymous == old(self).next_anonymous(),
                retained == old(self).routing().retained().messages(),
                regs.len() == i + 1,
                regs[0] == old(self).routing().registry(),
                regs[i as int] == self.router.registry(),
                subscribe_chain(regs, c, subs.take(i as int)),
                return_codes@ == suback_codes(subs.take(i as int)),
                packets_view(responses@) == retained_publishes(retained, subs.take(i as int)),
                c == old(client).client_id@,
                s0 == old(client).session.subs(),
                client.session.wf(),
                client.session.subs() == subscribed_all(s0, subs.take(i as int)),
                client.session.same_identity(&old(client).session),
                client.session.same_flows(&old(client).session),
                client.session.allocator() == old(client).session.allocator(),
                client.session.queue() == old(client).session.queue(),
                *client == (Client { session: client.session, ..*old(client) }),
            decreases subs.len() - i,
        {
            let sub = &subscribe.subscriptions[i];
            let ghost sv = subs[i as int];
            assert(sv == sub@);
            let ghost reg_before = self.router.registry();
            let ghost pubs_before = packets_view(responses@);
            match self.router.subscribe(client.client_id.as_str(), sub.topic_filter.as_str(), sub.qos) {
                Ok((granted, retained_messages)) => {
                    // Record the subscription in the session
                    client.subscribe(sub.topic_filter.as_str(), granted);
                    return_codes.push(
                        match granted {
                            QoS::AtMostOnce => SubAckCode::SuccessQoS0,
                            QoS::AtLeastOnce => SubAckCode::SuccessQoS1,
                            QoS::ExactlyOnce => SubAckCode::SuccessQoS2,
                        },
                    );
                    // The retained messages, to deliver
                    let ghost matching = matching_messages(retained, sv.topic_filter);
                    let mut j: usize = 0;
                    while j < retained_messages.len()
                        invariant
                            j <= retained_messages@.len(),
                            routed_list(retained_messages@) == retained_deliveries(matching, c, granted),
                            packets_view(responses@) == pubs_before + retained_publish_all(matching.take(j as int)),
                        decreases retained_messages@.len() - j,
                    {
                        let msg = &retained_messages[j];
                        let ghost before = responses@;
                        assert(routed_list(retained_messages@).len() == retained_messages@.len());
                        assert(retained_deliveries(matching, c, granted).len() == matching.len());
                        assert(routed_list(retained_messages@)[j as int] == retained_deliveries(matching, c, granted)[j as int]);
                        assert(routed_list(retained_messages@)[j as int] == crate::router::router::routed_view(*msg));
                        assert(msg.topic@ == matching[j as int].0);
                        assert(msg.payload@ == matching[j as int].1);
                        let publish = Publish::new(msg.topic.as_str(), bytes_copy_from_slice(msg.payload.as_slice())).retain(
                            true,
                        );
                        responses.push(Packet::Publish(publish));
                        proof {
                            assert(retained_publish(matching[j as int]) == Packet::Publish(publish)@);
                            assert(retained_publish_all(matching.take(j as int + 1)) =~= retained_publish_all(
                                matching.take(j as int),
                            ).push(retained_publish(matching[j as int])));
                            assert(packets_view(responses@) =~= packets_view(before).push(Packet::Publish(publish)@));
                        }
                        j = j + 1;
                    }
                    proof {
                        assert(routed_list(retained_messages@).len() == matching.len());
                        assert(matching.take(matching.len() as int) =~= matching);
                    }
                },
                Err(_) => {
                    return_codes.push(SubAckCode::Failure);
                },
            }
            proof {
                let t = subs.take(i as int + 1);
                assert(t.drop_last() =~= subs.take(i as int));
                assert(t.last() == sv);
                let regs2 = regs.push(self.router.registry());
                assert forall|j: int| 0 <= j < t.len() implies if filter_valid(#[trigger] t[j].topic_filter) {
                    subscribe_effect(regs2[j], regs2[j + 1], c, t[j].topic_filter, t[j].qos)
                } else {
                    regs2[j + 1] == regs2[j]
                } by {
                    if j < i {
                        assert(t[j] == subs.take(i as int)[j]);
                    }
                }
                regs = regs2;
                if filter_valid(sv.topic_filter) {
                    assert(packets_view(responses@) =~= retained_publishes(retained, t));
                } else {
                    assert(packets_view(responses@) =~= retained_publishes(retained, t));
                }
            }
            i = i + 1;
        }
        proof {
            assert(subs.take(subs.len() as int) =~= subs);
        }
        // The SUBACK, then the retained messages
        let suback = Packet::SubAck(SubAck { packet_id: subscribe.packet_id, return_codes });
        if responses.len() == 0 {
            HandleResult::Response(suback)
        } else {
            let ghost rest = responses@;
            let mut all: Vec<Packet> = Vec::new();
            all.push(suback);
            all.append(&mut responses);
            proof {
                assert(packets_view(all@) =~= seq![suback@] + packets_view(rest));
            }
            HandleResult::Responses(all)
        }
    }

    /// Handle UNSUBSCRIBE.
    fn handle_unsubscribe(&mut self, client: &mut Client, unsubscribe: crate::codec::packet::Unsubscribe) -> (r: HandleResult)
        requires
            old(self).wf(),
            old(client).session.wf(),
        ensures
            final(self).wf(),
            final(client).session.wf(),
            unsubscribe_handled(*old(self), *final(self), *old(client), *final(client), unsubscribe@, r@),
    {
        if !client.is_connected() {
            return HandleResult::Error("Not connected".to_string());
        }
        let ghost fs = unsubscribe@.topic_filters;
        let ghost c = client.client_id@;
        let ghost s0 = client.session.subs();
        let ghost mut regs: Seq<SubscriptionRegistry> = seq![self.router.registry()];
        let ghost mut was: Seq<bool> = Seq::empty();
        let mut i: usize = 0;
        proof {
            assert(fs.take(0) =~= Seq::<Seq<char>>::empty());
        }
        while i < unsubscribe.topic_filters.len()
            invariant
                fs == unsubscribe@.topic_filters,
                i <= fs.len(),
                self.wf(),
                self.router.retained() == old(self).routing().retained(),
                self.next_anonymous == old(self).next_anonymous(),
                regs[0] == old(self).routing().registry(),
                regs[i as int] == self.router.registry(),
                unsubscribe_chain(regs, was, c, fs.take(i as int)),
                c == old(client).client_id@,
                s0 == old(client).session.subs(),
                client.session.wf(),
                client.session.subs() == unsubscribed_all(s0, fs.take(i as int)),
                client.session.same_identity(&old(client).session),
                client.session.same_flows(&old(client).session),
                client.session.allocator() == old(client).session.allocator(),
                client.session.queue() == old(client).session.queue(),
                *client == (Client { session: client.session, ..*old(client) }),
            decreases fs.len() - i,
        {
            let filter = &unsubscribe.topic_filters[i];
            assert(filter@ == fs[i as int]);
            let w = self.router.unsubscribe(client.client_id.as_str(), filter.as_str());
            client.unsubscribe(filter.as_str());
            proof {
                let t = fs.take(i as int + 1);
                assert(t.drop_last() =~= fs.take(i as int));
                let regs2 = regs.push(self.router.registry());
                let was2 = was.push(w);
                assert forall|j: int| 0 <= j < t.len() implies unsubscribe_effect(
                    regs2[j],
                    regs2[j + 1],
                    c,
                    #[trigger] t[j],
                    was2[j],
                ) by {
                    if j < i {
                        assert(t[j] == fs.take(i as int)[j]);
                    }
                }
                regs = regs2;
                was = was2;
            }
            i = i + 1;
        }
        proof {
            assert(fs.take(fs.len() as int) =~= fs);
        }
        HandleResult::Response(Packet::UnsubAck(UnsubAck { packet_id: unsubscribe.packet_id }))
    }
}

/// A queued message, delivered as a QoS 0 publish.
pub open spec fn queued_publish(m: crate::session::session::QueuedMessage) -> PacketView {
    PacketView::Publish(
        PublishView {
            dup: false,
            qos: QoS::AtMostOnce,
            retain: false,
            topic: m.topic@,
            packet_id: None,
            payload: bytes_seq(m.payload),
        },
    )
}

impl PacketHandler {
    /// The messages queued for a client, taken from its session, as
    /// publishes, oldest first.
    pub fn get_pending_messages(&self, client: &mut Client) -> (r: Vec<Packet>)
        requires
            old(client).session.wf(),
        ensures
            final(client).session.wf(),
            packets_view(r@) == old(client).session.queue().map_values(
                |m: crate::session::session::QueuedMessage| queued_publish(m),
            ),
            final(client).session.queue().len() == 0,
            final(client).session.same_identity(&old(client).session),
            final(client).session.same_flows(&old(client).session),
            final(client).session.subs() == old(client).session.subs(),
            final(client).session.allocator() == old(client).session.allocator(),
            *final(client) == (Client { session: final(client).session, ..*old(client) }),
    {
        let ghost q = client.session.queue();
        let mut packets: Vec<Packet> = Vec::new();
        let ghost mut taken: nat = 0;
        while client.session.has_queued_messages()
            invariant
                client.session.wf(),
                taken <= q.len(),
                client.session.queue() == q.skip(taken as int),
                packets_view(packets@) == q.take(taken as int).map_values(
                    |m: crate::session::session::QueuedMessage| queued_publish(m),
                ),
                client.session.same_identity(&old(client).session),
                client.session.same_flows(&old(client).session),
                client.session.subs() == old(client).session.subs(),
                client.session.allocator() == old(client).session.allocator(),
                *client == (Client { session: client.session, ..*old(client) }),
            decreases client.session.queue().len(),
        {
            let ghost before = packets@;
            match client.session.dequeue_message() {
                Some(msg) => {
                    let publish = Publish::new(msg.topic.as_str(), msg.payload);
                    packets.push(Packet::Publish(publish));
                    proof {
                        assert(q.skip(taken as int)[0] == q[taken as int]);
                        assert(q.skip(taken as int).drop_first() =~= q.skip(taken as int + 1));
                        assert(q.take(taken as int + 1).map_values(|m: crate::session::session::QueuedMessage| queued_publish(m))
                            =~= q.take(taken as int).map_values(|m: crate::session::session::QueuedMessage| queued_publish(m)).push(
                            queued_publish(q[taken as int]),
                        ));
                        assert(packets_view(packets@) =~= packets_view(before).push(Packet::Publish(publish)@));
                        taken = taken + 1;
                    }
                },
                None => {},
            }
        }
        proof {
            assert(q.skip(taken as int).len() == 0);
            assert(q.take(taken as int) =~= q);
        }
        packets
    }

    /// When a client's connection has closed: with a clean session, its
    /// subscriptions are removed.
    pub fn connection_closed(&mut self, client: &Client)
        requires
            old(self).wf(),
        ensures
            final(self).wf(),
            final(self).next_anonymous() == old(self).next_anonymous(),
            client.clean_session ==> remove_client_effect(
                old(self).routing().registry(),
                final(self).routing().registry(),
                client.client_id@,
                recorded_filters(old(self).routing().registry().clients(), client.client_id@),
            ) && final(self).routing().retained() == old(self).routing().retained(),
            !client.clean_session ==> final(self).routing() == old(self).routing(),
    {
        if client.clean_session {
            self.router.remove_client(client.client_id.as_str());
        }
    }
}

/// The SUBACK answers each subscription request in order: a valid request
/// is granted the QoS it asked for (the code's value is that QoS), an
/// invalid one gets the failure code 0x80.
pub proof fn lemma_suback_codes(subs: Seq<SubscriptionView>)
    ensures
        suback_codes(subs).len() == subs.len(),
        forall|i: int| 0 <= i < subs.len() && filter_valid(subs[i].topic_filter)
            ==> suback_code_value(#[trigger] suback_codes(subs)[i]) == qos_value(subs[i].qos),
        forall|i: int| 0 <= i < subs.len() && !filter_valid(subs[i].topic_filter)
            ==> #[trigger] suback_codes(subs)[i] == SubAckCode::Failure && suback_code_value(suback_codes(subs)[i]) == 0x80,
    decreases subs.len(),
{
    if subs.len() > 0 {
        lemma_suback_codes(subs.drop_last());
        assert forall|i: int| 0 <= i < subs.len() - 1 implies #[trigger] subs[i] == subs.drop_last()[i] by {}
    }
}

/// Subscribing to filter `f` at `qos` records `(f, qos)` and keeps every
/// subscription to another filter.
proof fn lemma_subscribe_records(s: Seq<(Seq<char>, QoS)>, f: Seq<char>, qos: QoS)
    ensures
        spec_subscribe(s, f, qos).contains((f, qos)),
        forall|x: (Seq<char>, QoS)| x.0 != f && #[trigger] s.contains(x) ==> spec_subscribe(s, f, qos).contains(x),
{
    lemma_key_index(s, f);
    let k = key_index(s, f);
    let s2 = spec_subscribe(s, f, qos);
    if k >= 0 {
        assert(s2[k] == (f, qos));
        assert forall|x: (Seq<char>, QoS)| x.0 != f && #[trigger] s.contains(x) implies s2.contains(x) by {
            let j = choose|j: int| 0 <= j < s.len() && s[j] == x;
            assert(s2[j] == x);
        }
    } else {
        assert(s2[s.len() as int] == (f, qos));
        assert forall|x: (Seq<char>, QoS)| x.0 != f && #[trigger] s.contains(x) implies s2.contains(x) by {
            let j = choose|j: int| 0 <= j < s.len() && s[j] == x;
            assert(s2[j] == x);
        }
    }
}

/// No later valid request of `subs` than `i` names the same filter.
pub open spec fn last_request_for_filter(subs: Seq<SubscriptionView>, i: int) -> bool {
    forall|j: int| i < j < subs.len() && filter_valid(subs[j].topic_filter)
        ==> #[trigger] subs[j].topic_filter != subs[i].topic_filter
}

/// After the requests, the subscriptions hold each valid request's filter at
/// the QoS it asked for (the last request wins for a repeated filter).
pub proof fn lemma_subscribed_all_records(s: Seq<(Seq<char>, QoS)>, subs: Seq<SubscriptionView>)
    ensures
        forall|i: int| 0 <= i < subs.len() && filter_valid(subs[i].topic_filter) && last_request_for_filter(subs, i)
            ==> #[trigger] subscribed_all(s, subs).contains((subs[i].topic_filter, subs[i].qos)),
    decreases subs.len(),
{
    if subs.len() > 0 {
        let pre = subs.drop_last();
        let n = subs.len() - 1;
        lemma_subscribed_all_records(s, pre);
        let before = subscribed_all(s, pre);
        lemma_subscribe_records(before, subs[n].topic_filter, subs[n].qos);
        assert forall|i: int| 0 <= i < subs.len() && filter_valid(subs[i].topic_filter) && last_request_for_filter(subs, i)
            implies #[trigger] subscribed_all(s, subs).contains((subs[i].topic_filter, subs[i].qos)) by {
            if i < n {
                assert(pre[i] == subs[i]);
                assert forall|j: int| i < j < pre.len() && filter_valid(pre[j].topic_filter)
                    implies #[trigger] pre[j].topic_filter != pre[i].topic_filter by {
                    assert(pre[j] == subs[j]);
                }
                assert(before.contains((subs[i].topic_filter, subs[i].qos)));
                if filter_valid(subs[n].topic_filter) {
                    assert(subs[n].topic_filter != subs[i].topic_filter);
                }
            }
        }
    }
}

/// A connected client's SUBSCRIBE is answered first by a SUBACK with its
/// packet id, granting each valid request the QoS it asked for (code value
/// = that QoS, 0x80 for an invalid filter); the session records each
/// granted filter at that same QoS.
pub proof fn lemma_subscribe_grants_requested_qos(
    h0: PacketHandler,
    h1: PacketHandler,
    c0: Client,
    c1: Client,
    sv: SubscribeView,
    r: HandleResultView,
)
    requires
        subscribe_handled(h0, h1, c0, c1, sv, r),
        c0.state == ClientState::Connected,
    ensures
        ({
            let codes = suback_codes(sv.subscriptions);
            let suback = PacketView::SubAck(crate::codec::packet::SubAckView { packet_id: sv.packet_id, return_codes: codes });
            &&& (r == HandleResultView::Response(suback)) || (r matches HandleResultView::Responses(ps) && ps.len() > 0
                && ps[0] == suback)
            &&& codes.len() == sv.subscriptions.len()
            &&& forall|i: int| 0 <= i < codes.len() ==> if filter_valid(sv.subscriptions[i].topic_filter) {
                suback_code_value(#[trigger] codes[i]) == qos_value(sv.subscriptions[i].qos)
            } else {
                suback_code_value(codes[i]) == 0x80
            }
            &&& forall|i: int| 0 <= i < codes.len() && filter_valid(sv.subscriptions[i].topic_filter)
                && last_request_for_filter(sv.subscriptions, i)
                ==> c1.session.subs().contains((#[trigger] sv.subscriptions[i].topic_filter, sv.subscriptions[i].qos))
        }),
{
    lemma_suback_codes(sv.subscriptions);
    lemma_subscribed_all_records(c0.session.subs(), sv.subscriptions);
    let codes = suback_codes(sv.subscriptions);
    assert forall|i: int| 0 <= i < codes.len() implies if filter_valid(sv.subscriptions[i].topic_filter) {
        suback_code_value(#[trigger] codes[i]) == qos_value(sv.subscriptions[i].qos)
    } else {
        suback_code_value(codes[i]) == 0x80
    } by {}
    assert forall|i: int| 0 <= i < codes.len() && filter_valid(sv.subscriptions[i].topic_filter)
        && last_request_for_filter(sv.subscriptions, i)
        implies c1.session.subs().contains((#[trigger] sv.subscriptions[i].topic_filter, sv.subscriptions[i].qos)) by {
        assert(subscribed_all(c0.session.subs(), sv.subscriptions).contains((sv.subscriptions[i].topic_filter, sv.subscriptions[i].qos)));
    }
}

/// A connected client's PUBLISH (one that is routed) is acknowledged as its
/// QoS asks: no answer at QoS 0, a PUBACK (packet type 4) carrying its
/// packet identifier at QoS 1, a PUBREC (packet type 5) carrying it at QoS 2;
/// it is counted once, and the subscriptions are unchanged.
pub proof fn lemma_publish_acknowledged(
    h0: PacketHandler,
    h1: PacketHandler,
    c0: Client,
    c1: Client,
    p: PublishView,
    r: HandleResultView,
)
    requires
        publish_handled(h0, h1, c0, c1, p, r),
        c0.state == ClientState::Connected,
        !p.retain || spec_store(
            h0.routing().retained().messages(),
            h0.routing().retained().max_messages(),
            h0.routing().retained().max_payload_size(),
            p.topic,
            p.payload,
            p.qos,
        ).0 is Ok,
    ensures
        r == HandleResultView::NoResponse <==> qos_value(p.qos) == 0,
        qos_value(p.qos) > 0 && p.packet_id is Some ==> (r matches HandleResultView::Response(a) && {
            &&& crate::codec::packet::packet_type_of(a) == 3 + qos_value(p.qos)
            &&& a == if qos_value(p.qos) == 1 {
                PacketView::PubAck(PubAck { packet_id: p.packet_id->0 })
            } else {
                PacketView::PubRec(PubRec { packet_id: p.packet_id->0 })
            }
        }),
        qos_value(p.qos) > 0 && p.packet_id is None ==> r is Error,
        c0.stats.messages_published < u64::MAX ==> c1.stats.messages_published == c0.stats.messages_published + 1,
        h1.routing().registry() == h0.routing().registry(),
        !p.retain ==> h1.routing().retained().messages() == h0.routing().retained().messages(),
{
    crate::codec::types::lemma_qos_values();
}

/// Unsubscribing from filter `f` drops exactly the subscription to `f` and
/// keeps filters distinct.
proof fn lemma_unsubscribe_drops(s: Seq<(Seq<char>, QoS)>, f: Seq<char>)
    requires
        keys_unique(s),
    ensures
        keys_unique(spec_unsubscribe(s, f)),
        forall|x: (Seq<char>, QoS)| #[trigger] spec_unsubscribe(s, f).contains(x) <==> (s.contains(x) && x.0 != f),
{
    lemma_key_index(s, f);
    let k = key_index(s, f);
    let s2 = spec_unsubscribe(s, f);
    if k >= 0 {
        assert forall|a: int, b: int| 0 <= a < b < s2.len() implies s2[a].0 != s2[b].0 by {
            let a2 = if a < k { a } else { a + 1 };
            let b2 = if b < k { b } else { b + 1 };
            assert(s2[a] == s[a2]);
            assert(s2[b] == s[b2]);
        }
        assert forall|x: (Seq<char>, QoS)| #[trigger] s2.contains(x) <==> (s.contains(x) && x.0 != f) by {
            if s2.contains(x) {
                let j = choose|j: int| 0 <= j < s2.len() && s2[j] == x;
                let j2 = if j < k { j } else { j + 1 };
                assert(s[j2] == x);
                assert(s[j2].0 != s[k].0);
            }
            if s.contains(x) && x.0 != f {
                let j = choose|j: int| 0 <= j < s.len() && s[j] == x;
                assert(j != k);
                let j2 = if j < k { j } else { j - 1 };
                assert(s2[j2] == x);
            }
        }
    } else {
        assert forall|x: (Seq<char>, QoS)| #[trigger] s2.contains(x) <==> (s.contains(x) && x.0 != f) by {
            if s.contains(x) {
                let j = choose|j: int| 0 <= j < s.len() && s[j] == x;
                assert(s[j].0 != f);
            }
        }
    }
}

/// After unsubscribing from the filters `fs`, a session holds exactly the
/// subscriptions it held to filters not in `fs`.
pub proof fn lemma_unsubscribed_all(s: Seq<(Seq<char>, QoS)>, fs: Seq<Seq<char>>)
    requires
        keys_unique(s),
    ensures
        keys_unique(unsubscribed_all(s, fs)),
        forall|x: (Seq<char>, QoS)| #[trigger] unsubscribed_all(s, fs).contains(x) <==> (s.contains(x) && !fs.contains(x.0)),
    decreases fs.len(),
{
    if fs.len() > 0 {
        let pre = fs.drop_last();
        lemma_unsubscribed_all(s, pre);
        lemma_unsubscribe_drops(unsubscribed_all(s, pre), fs.last());
        assert forall|x: (Seq<char>, QoS)| #[trigger] unsubscribed_all(s, fs).contains(x) <==> (s.contains(x) && !fs.contains(x.0)) by {
            assert(unsubscribed_all(s, pre).contains(x) <==> (s.contains(x) && !pre.contains(x.0)));
            if fs.contains(x.0) && x.0 != fs.last() {
                let j = choose|j: int| 0 <= j < fs.len() && fs[j] == x.0;
                assert(pre[j] == x.0);
            }
            if pre.contains(x.0) {
                let j = choose|j: int| 0 <= j < pre.len() && pre[j] == x.0;
                assert(fs[j] == x.0);
            }
            assert(fs[fs.len() - 1] == fs.last());
        }
    }
}

/// A connected client's UNSUBSCRIBE is answered by an UNSUBACK with its
/// packet identifier; afterwards the session holds exactly the subscriptions
/// it held to the filters it did not name.
pub proof fn lemma_unsubscribe_answer(
    h0: PacketHandler,
    h1: PacketHandler,
    c0: Client,
    c1: Client,
    uv: UnsubscribeView,
    r: HandleResultView,
)
    requires
        unsubscribe_handled(h0, h1, c0, c1, uv, r),
        c0.state == ClientState::Connected,
        c0.session.wf(),
    ensures
        r == HandleResultView::Response(PacketView::UnsubAck(UnsubAck { packet_id: uv.packet_id })),
        forall|x: (Seq<char>, QoS)| #[trigger] c1.session.subs().contains(x) <==> (c0.session.subs().contains(x)
            && !uv.topic_filters.contains(x.0)),
{
    c0.session.lemma_subs_unique();
    lemma_unsubscribed_all(c0.session.subs(), uv.topic_filters);
}

} // verus!
