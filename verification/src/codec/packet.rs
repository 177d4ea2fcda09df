//! MQTT packet definitions for all 14 packet types.

use vstd::prelude::*;

use bytes::Bytes;

use crate::buf::bytes_seq;
use crate::codec::types::{
    ConnectFlags, ConnectReturnCode, PacketId, QoS, SubAckCode, Subscription, SubscriptionView,
    Will, WillView,
};

verus! {

/// All MQTT 3.1.1 packet types.
#[derive(Debug, Clone, PartialEq, Eq)]
pub enum Packet {
    /// Client request to connect to broker
    Connect(Connect),
    /// Connect acknowledgment
    ConnAck(ConnAck),
    /// Publish message
    Publish(Publish),
    /// Publish acknowledgment (QoS 1)
    PubAck(PubAck),
    /// Publish received (QoS 2, part 1)
    PubRec(PubRec),
    /// Publish release (QoS 2, part 2)
    PubRel(PubRel),
    /// Publish complete (QoS 2, part 3)
    PubComp(PubComp),
    /// Subscribe to topics
    Subscribe(Subscribe),
    /// Subscribe acknowledgment
    SubAck(SubAck),
    /// Unsubscribe from topics
    Unsubscribe(Unsubscribe),
    /// Unsubscribe acknowledgment
    UnsubAck(UnsubAck),
    /// Ping request
    PingReq,
    /// Ping response
    PingResp,
    /// Client disconnecting
    Disconnect,
}

/// What a packet holds, as plain values.
pub enum PacketView {
    Connect(ConnectView),
    ConnAck(ConnAck),
    Publish(PublishView),
    PubAck(PubAck),
    PubRec(PubRec),
    PubRel(PubRel),
    PubComp(PubComp),
    Subscribe(SubscribeView),
    SubAck(SubAckView),
    Unsubscribe(UnsubscribeView),
    UnsubAck(UnsubAck),
    PingReq,
    PingResp,
    Disconnect,
}

impl View for Packet {
    type V = PacketView;

    open spec fn view(&self) -> PacketView {
        match self {
            Packet::Connect(p) => PacketView::Connect(p@),
            Packet::ConnAck(p) => PacketView::ConnAck(*p),
            Packet::Publish(p) => PacketView::Publish(p@),
            Packet::PubAck(p) => PacketView::PubAck(*p),
            Packet::PubRec(p) => PacketView::PubRec(*p),
            Packet::PubRel(p) => PacketView::PubRel(*p),
            Packet::PubComp(p) => PacketView::PubComp(*p),
            Packet::Subscribe(p) => PacketView::Subscribe(p@),
            Packet::SubAck(p) => PacketView::SubAck(p@),
            Packet::Unsubscribe(p) => PacketView::Unsubscribe(p@),
            Packet::UnsubAck(p) => PacketView::UnsubAck(*p),
            Packet::PingReq => PacketView::PingReq,
            Packet::PingResp => PacketView::PingResp,
            Packet::Disconnect => PacketView::Disconnect,
        }
    }
}

/// The packet type number (1 to 14) of a packet.
pub open spec fn packet_type_of(p: PacketView) -> u8 {
    match p {
        PacketView::Connect(_) => 1,
        PacketView::ConnAck(_) => 2,
        PacketView::Publish(_) => 3,
        PacketView::PubAck(_) => 4,
        PacketView::PubRec(_) => 5,
        PacketView::PubRel(_) => 6,
        PacketView::PubComp(_) => 7,
        PacketView::Subscribe(_) => 8,
        PacketView::SubAck(_) => 9,
        PacketView::Unsubscribe(_) => 10,
        PacketView::UnsubAck(_) => 11,
        PacketView::PingReq => 12,
        PacketView::PingResp => 13,
        PacketView::Disconnect => 14,
    }
}

impl Packet {
    /// The packet type number (1-14).
    pub fn packet_type(&self) -> (r: u8)
        ensures
            r == packet_type_of(self@),
            1 <= r <= 14,
    {
        match self {
            Packet::Connect(_) => 1,
            Packet::ConnAck(_) => 2,
            Packet::Publish(_) => 3,
            Packet::PubAck(_) => 4,
            Packet::PubRec(_) => 5,
            Packet::PubRel(_) => 6,
            Packet::PubComp(_) => 7,
            Packet::Subscribe(_) => 8,
            Packet::SubAck(_) => 9,
            Packet::Unsubscribe(_) => 10,
            Packet::UnsubAck(_) => 11,
            Packet::PingReq => 12,
            Packet::PingResp => 13,
            Packet::Disconnect => 14,
        }
    }

    /// A human-readable name for logging.
    pub fn name(&self) -> (r: &'static str)
        ensures
            r@ == packet_name(self@),
    {
        match self {
            Packet::Connect(_) => "CONNECT",
            Packet::ConnAck(_) => "CONNACK",
            Packet::Publish(_) => "PUBLISH",
            Packet::PubAck(_) => "PUBACK",
            Packet::PubRec(_) => "PUBREC",
            Packet::PubRel(_) => "PUBREL",
            Packet::PubComp(_) => "PUBCOMP",
            Packet::Subscribe(_) => "SUBSCRIBE",
            Packet::SubAck(_) => "SUBACK",
            Packet::Unsubscribe(_) => "UNSUBSCRIBE",
            Packet::UnsubAck(_) => "UNSUBACK",
            Packet::PingReq => "PINGREQ",
            Packet::PingResp => "PINGRESP",
            Packet::Disconnect => "DISCONNECT",
        }
    }
}

/// The name of a packet's type, as MQTT 3.1.1 writes it.
pub open spec fn packet_name(p: PacketView) -> Seq<char> {
    match p {
        PacketView::Connect(_) => "CONNECT"@,
        PacketView::ConnAck(_) => "CONNACK"@,
        PacketView::Publish(_) => "PUBLISH"@,
        PacketView::PubAck(_) => "PUBACK"@,
        PacketView::PubRec(_) => "PUBREC"@,
        PacketView::PubRel(_) => "PUBREL"@,
        PacketView::PubComp(_) => "PUBCOMP"@,
        PacketView::Subscribe(_) => "SUBSCRIBE"@,
        PacketView::SubAck(_) => "SUBACK"@,
        PacketView::Unsubscribe(_) => "UNSUBSCRIBE"@,
        PacketView::UnsubAck(_) => "UNSUBACK"@,
        PacketView::PingReq => "PINGREQ"@,
        PacketView::PingResp => "PINGRESP"@,
        PacketView::Disconnect => "DISCONNECT"@,
    }
}

/// CONNECT packet (client to broker), MQTT 3.1.1 §3.1.
#[derive(Debug, Clone, PartialEq, Eq)]
pub struct Connect {
    /// Protocol name ("MQTT" for 3.1.1)
    pub protocol_name: String,
    /// Protocol level (4 for 3.1.1)
    pub protocol_level: u8,
    /// Connect flags
    pub flags: ConnectFlags,
    /// Keep alive interval in seconds
    pub keep_alive: u16,
    /// Client identifier
    pub client_id: String,
    /// Last will and testament
    pub will: Option<Will>,
    /// Username for authentication
    pub username: Option<String>,
    /// Password for authentication
    pub password: Option<Bytes>,
}

/// What a CONNECT packet holds, as plain values.
pub struct ConnectView {
    pub protocol_name: Seq<char>,
    pub protocol_level: u8,
    pub flags: ConnectFlags,
    pub keep_alive: u16,
    pub client_id: Seq<char>,
    pub will: Option<WillView>,
    pub username: Option<Seq<char>>,
    pub password: Option<Seq<u8>>,
}

impl View for Connect {
    type V = ConnectView;

    open spec fn view(&self) -> ConnectView {
        ConnectView {
            protocol_name: self.protocol_name@,
            protocol_level: self.protocol_level,
            flags: self.flags,
            keep_alive: self.keep_alive,
            client_id: self.client_id@,
            will: opt_will_view(self.will),
            username: opt_string_view(self.username),
            password: opt_bytes_view(self.password),
        }
    }
}

/// An optional will, as plain values.
pub open spec fn opt_will_view(w: Option<Will>) -> Option<WillView> {
    match w {
        Some(w) => Some(w@),
        None => None,
    }
}

/// An optional string, as characters.
pub open spec fn opt_string_view(s: Option<String>) -> Option<Seq<char>> {
    match s {
        Some(s) => Some(s@),
        None => None,
    }
}

/// Optional bytes, as a sequence.
pub open spec fn opt_bytes_view(b: Option<Bytes>) -> Option<Seq<u8>> {
    match b {
        Some(b) => Some(bytes_seq(b)),
        None => None,
    }
}

impl Connect {
    /// A minimal CONNECT packet: protocol "MQTT" level 4, clean session,
    /// keep alive 60 seconds, no will and no credentials.
    pub fn new(client_id: &str) -> (r: Self)
        ensures
            r.protocol_name@ == "MQTT"@,
            r.protocol_level == 4,
            r.flags == (ConnectFlags {
                clean_session: true,
                will: false,
                will_qos: QoS::AtMostOnce,
                will_retain: false,
                username: false,
                password: false,
            }),
            r.keep_alive == 60,
            r.client_id@ == client_id@,
            r.will.is_none(),
            r.username.is_none(),
            r.password.is_none(),
    {
        let flags = ConnectFlags { clean_session: true, ..Default::default() };
        Connect {
            protocol_name: "MQTT".to_string(),
            protocol_level: 4,
            flags,
            keep_alive: 60,
            client_id: client_id.to_string(),
            will: None,
            username: None,
            password: None,
        }
    }

    /// Set the clean session flag.
    pub fn clean_session(self, clean: bool) -> (r: Self)
        ensures
            r@ == (ConnectView {
                flags: ConnectFlags { clean_session: clean, ..self@.flags },
                ..self@
            }),
    {
        let mut s = self;
        s.flags.clean_session = clean;
        s
    }

    /// Set the keep alive interval.
    pub fn keep_alive(self, seconds: u16) -> (r: Self)
        ensures
            r@ == (ConnectView { keep_alive: seconds, ..self@ }),
    {
        let mut s = self;
        s.keep_alive = seconds;
        s
    }

    /// Set the will message and the flags that announce it.
    pub fn will(self, topic: String, message: Bytes, qos: QoS, retain: bool) -> (r: Self)
        ensures
            r@ == (ConnectView {
                flags: ConnectFlags {
                    will: true,
                    will_qos: qos,
                    will_retain: retain,
                    ..self@.flags
                },
                will: Some(
                    WillView { topic: topic@, message: bytes_seq(message), qos, retain },
                ),
                ..self@
            }),
    {
        let mut s = self;
        s.flags.will = true;
        s.flags.will_qos = qos;
        s.flags.will_retain = retain;
        s.will = Some(Will { topic, message, qos, retain });
        s
    }

    /// Set the credentials and the flags that announce them.
    pub fn credentials(self, username: String, password: Option<Bytes>) -> (r: Self)
        ensures
            r@ == (ConnectView {
                flags: ConnectFlags {
                    username: true,
                    password: password.is_some(),
                    ..self@.flags
                },
                username: Some(username@),
                password: match password {
                    Some(p) => Some(bytes_seq(p)),
                    None => None,
                },
                ..self@
            }),
    {
        let mut s = self;
        s.flags.username = true;
        s.flags.password = password.is_some();
        s.username = Some(username);
        s.password = password;
        s
    }
}

/// CONNACK packet (broker to client), MQTT 3.1.1 §3.2.
#[derive(Debug, Clone, Copy, PartialEq, Eq, Structural)]
pub struct ConnAck {
    /// Session present flag
    pub session_present: bool,
    /// Connect return code
    pub return_code: ConnectReturnCode,
}

impl ConnAck {
    /// An accepted CONNACK.
    pub fn accepted(session_present: bool) -> (r: Self)
        ensures
            r == (ConnAck { session_present, return_code: ConnectReturnCode::Accepted }),
    {
        ConnAck { session_present, return_code: ConnectReturnCode::Accepted }
    }

    /// A rejected CONNACK (no session present).
    pub fn rejected(code: ConnectReturnCode) -> (r: Self)
        ensures
            r == (ConnAck { session_present: false, return_code: code }),
    {
        ConnAck { session_present: false, return_code: code }
    }
}

/// PUBLISH packet (both directions), MQTT 3.1.1 §3.3.
#[derive(Debug, Clone, PartialEq, Eq)]
pub struct Publish {
    /// Duplicate delivery flag
    pub dup: bool,
    /// Quality of Service level
    pub qos: QoS,
    /// Retain flag
    pub retain: bool,
    /// Topic name
    pub topic: String,
    /// Packet identifier (only for QoS 1/2)
    pub packet_id: Option<PacketId>,
    /// Application message payload
    pub payload: Bytes,
}

/// What a PUBLISH packet holds, as plain values.
pub struct PublishView {
    pub dup: bool,
    pub qos: QoS,
    pub retain: bool,
    pub topic: Seq<char>,
    pub packet_id: Option<u16>,
    pub payload: Seq<u8>,
}

impl View for Publish {
    type V = PublishView;

    open spec fn view(&self) -> PublishView {
        PublishView {
            dup: self.dup,
            qos: self.qos,
            retain: self.retain,
            topic: self.topic@,
            packet_id: self.packet_id,
            payload: bytes_seq(self.payload),
        }
    }
}

impl Publish {
    /// A QoS 0 publish.
    pub fn new(topic: &str, payload: Bytes) -> (r: Self)
        ensures
            r@ == (PublishView {
                dup: false,
                qos: QoS::AtMostOnce,
                retain: false,
                topic: topic@,
                packet_id: None,
                payload: bytes_seq(payload),
            }),
    {
        Publish {
            dup: false,
            qos: QoS::AtMostOnce,
            retain: false,
            topic: topic.to_string(),
            packet_id: None,
            payload,
        }
    }

    /// A publish with a QoS level; the packet identifier is kept only for
    /// QoS 1 and 2.
    pub fn with_qos(topic: &str, payload: Bytes, qos: QoS, packet_id: PacketId) -> (r: Self)
        ensures
            r@ == (PublishView {
                dup: false,
                qos,
                retain: false,
                topic: topic@,
                packet_id: if qos == QoS::AtMostOnce {
                    None
                } else {
                    Some(packet_id)
                },
                payload: bytes_seq(payload),
            }),
    {
        Publish {
            dup: false,
            qos,
            retain: false,
            topic: topic.to_string(),
            packet_id: if qos == QoS::AtMostOnce {
                None
            } else {
                Some(packet_id)
            },
            payload,
        }
    }

    /// Set the retain flag.
    pub fn retain(self, retain: bool) -> (r: Self)
        ensures
            r@ == (PublishView { retain, ..self@ }),
    {
        let mut s = self;
        s.retain = retain;
        s
    }

    /// Set the dup flag (for retransmission).
    pub fn dup(self, dup: bool) -> (r: Self)
        ensures
            r@ == (PublishView { dup, ..self@ }),
    {
        let mut s = self;
        s.dup = dup;
        s
    }
}

/// PUBACK packet (QoS 1 acknowledgment), MQTT 3.1.1 §3.4.
#[derive(Debug, Clone, Copy, PartialEq, Eq, Structural)]
pub struct PubAck {
    pub packet_id: PacketId,
}

/// PUBREC packet (QoS 2, step 1 response), MQTT 3.1.1 §3.5.
#[derive(Debug, Clone, Copy, PartialEq, Eq, Structural)]
pub struct PubRec {
    pub packet_id: PacketId,
}

/// PUBREL packet (QoS 2, step 2), MQTT 3.1.1 §3.6.
#[derive(Debug, Clone, Copy, PartialEq, Eq, Structural)]
pub struct PubRel {
    pub packet_id: PacketId,
}

/// PUBCOMP packet (QoS 2, step 3), MQTT 3.1.1 §3.7.
#[derive(Debug, Clone, Copy, PartialEq, Eq, Structural)]
pub struct PubComp {
    pub packet_id: PacketId,
}

/// SUBSCRIBE packet (client to broker), MQTT 3.1.1 §3.8.
#[derive(Debug, Clone, PartialEq, Eq)]
pub struct Subscribe {
    pub packet_id: PacketId,
    pub subscriptions: Vec<Subscription>,
}

/// What a SUBSCRIBE packet holds, as plain values.
pub struct SubscribeView {
    pub packet_id: u16,
    pub subscriptions: Seq<SubscriptionView>,
}

impl View for Subscribe {
    type V = SubscribeView;

    open spec fn view(&self) -> SubscribeView {
        SubscribeView {
            packet_id: self.packet_id,
            subscriptions: self.subscriptions@.map_values(|s: Subscription| s@),
        }
    }
}

impl Subscribe {
    /// A SUBSCRIBE packet.
    pub fn new(packet_id: PacketId, subscriptions: Vec<Subscription>) -> (r: Self)
        ensures
            r.packet_id == packet_id,
            r.subscriptions == subscriptions,
    {
        Subscribe { packet_id, subscriptions }
    }

    /// A SUBSCRIBE packet for a single topic filter.
    pub fn single(packet_id: PacketId, topic: &str, qos: QoS) -> (r: Self)
        ensures
            r@ == (SubscribeView {
                packet_id,
                subscriptions: seq![SubscriptionView { topic_filter: topic@, qos }],
            }),
    {
        let mut subscriptions = Vec::new();
        subscriptions.push(Subscription { topic_filter: topic.to_string(), qos });
        let r = Subscribe { packet_id, subscriptions };
        assert(r@.subscriptions =~= seq![SubscriptionView { topic_filter: topic@, qos }]);
        r
    }
}

/// SUBACK packet (broker to client), MQTT 3.1.1 §3.9.
#[derive(Debug, Clone, PartialEq, Eq)]
pub struct SubAck {
    pub packet_id: PacketId,
    pub return_codes: Vec<SubAckCode>,
}

/// What a SUBACK packet holds, as plain values.
pub struct SubAckView {
    pub packet_id: u16,
    pub return_codes: Seq<SubAckCode>,
}

impl View for SubAck {
    type V = SubAckView;

    open spec fn view(&self) -> SubAckView {
        SubAckView { packet_id: self.packet_id, return_codes: self.return_codes@ }
    }
}

/// UNSUBSCRIBE packet (client to broker), MQTT 3.1.1 §3.10.
#[derive(Debug, Clone, PartialEq, Eq)]
pub struct Unsubscribe {
    pub packet_id: PacketId,
    pub topic_filters: Vec<String>,
}

/// What an UNSUBSCRIBE packet holds, as plain values.
pub struct UnsubscribeView {
    pub packet_id: u16,
    pub topic_filters: Seq<Seq<char>>,
}

impl View for Unsubscribe {
    type V = UnsubscribeView;

    open spec fn view(&self) -> UnsubscribeView {
        UnsubscribeView {
            packet_id: self.packet_id,
            topic_filters: self.topic_filters@.map_values(|s: String| s@),
        }
    }
}

impl Unsubscribe {
    /// An UNSUBSCRIBE packet.
    pub fn new(packet_id: PacketId, topic_filters: Vec<String>) -> (r: Self)
        ensures
            r.packet_id == packet_id,
            r.topic_filters == topic_filters,
    {
        Unsubscribe { packet_id, topic_filters }
    }

    /// An UNSUBSCRIBE packet for a single topic filter.
    pub fn single(packet_id: PacketId, topic: &str) -> (r: Self)
        ensures
            r@ == (UnsubscribeView { packet_id, topic_filters: seq![topic@] }),
    {
        let mut topic_filters = Vec::new();
        topic_filters.push(topic.to_string());
        let r = Unsubscribe { packet_id, topic_filters };
        assert(r@.topic_filters =~= seq![topic@]);
        r
    }
}

/// UNSUBACK packet (broker to client), MQTT 3.1.1 §3.11.
#[derive(Debug, Clone, Copy, PartialEq, Eq, Structural)]
pub struct UnsubAck {
    pub packet_id: PacketId,
}

impl View for ConnAck {
    type V = ConnAck;

    open spec fn view(&self) -> ConnAck {
        *self
    }
}

impl View for PubAck {
    type V = PubAck;

    open spec fn view(&self) -> PubAck {
        *self
    }
}

impl View for PubRec {
    type V = PubRec;

    open spec fn view(&self) -> PubRec {
        *self
    }
}

impl View for PubRel {
    type V = PubRel;

    open spec fn view(&self) -> PubRel {
        *self
    }
}

impl View for PubComp {
    type V = PubComp;

    open spec fn view(&self) -> PubComp {
        *self
    }
}

impl View for UnsubAck {
    type V = UnsubAck;

    open spec fn view(&self) -> UnsubAck {
        *self
    }
}

} // verus!
