//! The decisions of the command-line clients: what the consumer answers to
//! each packet it receives and when it stops, and the acknowledgement
//! handshake of the producer's one publication. The clients themselves read
//! and send the packets.

use vstd::prelude::*;

use crate::codec::packet::{Packet, PacketView, PubAck, PubComp, PubRec, PubRel};
use crate::codec::types::QoS;

verus! {

/// What the consumer does after a packet.
#[derive(Debug)]
pub struct ConsumerStep {
    /// The number of messages received so far.
    pub received: usize,
    /// The packet to send back, if any.
    pub reply: Option<Packet>,
    /// Whether the consumer stops.
    pub stop: bool,
}

/// The acknowledgement of a received PUBLISH: PUBACK at QoS 1, PUBREC at
/// QoS 2, none at QoS 0 (or without a packet identifier).
pub open spec fn publish_ack(qos: QoS, packet_id: Option<u16>) -> Option<PacketView> {
    match (qos, packet_id) {
        (QoS::AtLeastOnce, Some(id)) => Some(PacketView::PubAck(PubAck { packet_id: id })),
        (QoS::ExactlyOnce, Some(id)) => Some(PacketView::PubRec(PubRec { packet_id: id })),
        _ => None,
    }
}

/// A reply, as a plain value.
pub open spec fn reply_view(r: Option<Packet>) -> Option<PacketView> {
    match r {
        Some(p) => Some(p@),
        None => None,
    }
}

/// The consumer's step on a packet, having received `received` messages
/// and stopping after `limit` of them: a PUBLISH is counted and
/// acknowledged, and the consumer stops once the count reaches the limit;
/// a PUBREL is answered with PUBCOMP; anything else is ignored.
pub fn consumer_on_packet(received: usize, limit: Option<usize>, packet: &Packet) -> (r: ConsumerStep)
    requires
        received < usize::MAX,
    ensures
        match packet@ {
            PacketView::Publish(p) => {
                &&& r.received == received + 1
                &&& reply_view(r.reply) == publish_ack(p.qos, p.packet_id)
                &&& r.stop == (limit matches Some(m) && received + 1 >= m)
            },
            PacketView::PubRel(q) => {
                &&& r.received == received
                &&& reply_view(r.reply) == Some(PacketView::PubComp(PubComp { packet_id: q.packet_id }))
                &&& !r.stop
            },
            _ => r.received == received && r.reply is None && !r.stop,
        },
{
    match packet {
        Packet::Publish(publish) => {
            let count = received + 1;
            let reply = match (publish.qos, publish.packet_id) {
                (QoS::AtLeastOnce, Some(id)) => Some(Packet::PubAck(PubAck { packet_id: id })),
                (QoS::ExactlyOnce, Some(id)) => Some(Packet::PubRec(PubRec { packet_id: id })),
                _ => None,
            };
            let stop = match limit {
                Some(max) => count >= max,
                None => false,
            };
            ConsumerStep { received: count, reply, stop }
        },
        Packet::PubRel(pubrel) => ConsumerStep {
            received,
            reply: Some(Packet::PubComp(PubComp { packet_id: pubrel.packet_id })),
            stop: false,
        },
        _ => ConsumerStep { received, reply: None, stop: false },
    }
}

/// Where the producer's publication stands.
#[derive(Debug, Clone, Copy, PartialEq, Eq, Structural)]
pub enum PublishPhase {
    /// Waiting for the PUBACK of a QoS 1 publication.
    AwaitPubAck,
    /// Waiting for the PUBREC of a QoS 2 publication.
    AwaitPubRec,
    /// Waiting for the PUBCOMP of a QoS 2 publication.
    AwaitPubComp,
    /// Nothing more to wait for.
    Done,
}

/// The phase after sending a PUBLISH at `qos`.
pub open spec fn spec_phase_after_publish(qos: QoS) -> PublishPhase {
    match qos {
        QoS::AtMostOnce => PublishPhase::Done,
        QoS::AtLeastOnce => PublishPhase::AwaitPubAck,
        QoS::ExactlyOnce => PublishPhase::AwaitPubRec,
    }
}

/// The phase after sending a PUBLISH at `qos`: QoS 0 needs no
/// acknowledgement, QoS 1 waits for PUBACK, QoS 2 for PUBREC.
pub fn phase_after_publish(qos: QoS) -> (r: PublishPhase)
    ensures
        r == spec_phase_after_publish(qos),
{
    match qos {
        QoS::AtMostOnce => PublishPhase::Done,
        QoS::AtLeastOnce => PublishPhase::AwaitPubAck,
        QoS::ExactlyOnce => PublishPhase::AwaitPubRec,
    }
}

/// The producer's step on a packet: the next phase, the reply to send and
/// whether the publication's flow completed. The awaited acknowledgement
/// moves the flow on (a PUBREC is answered with PUBREL); any other packet
/// ends it unfinished.
pub open spec fn producer_step(phase: PublishPhase, packet: PacketView) -> (PublishPhase, Option<PacketView>, bool) {
    match (phase, packet) {
        (PublishPhase::AwaitPubAck, PacketView::PubAck(_)) => (PublishPhase::Done, None, true),
        (PublishPhase::AwaitPubRec, PacketView::PubRec(a)) => (
            PublishPhase::AwaitPubComp,
            Some(PacketView::PubRel(PubRel { packet_id: a.packet_id })),
            false,
        ),
        (PublishPhase::AwaitPubComp, PacketView::PubComp(_)) => (PublishPhase::Done, None, true),
        _ => (PublishPhase::Done, None, false),
    }
}

/// The producer's step on a packet received while in `phase`.
pub fn producer_on_packet(phase: PublishPhase, packet: &Packet) -> (r: (PublishPhase, Option<Packet>, bool))
    ensures
        (r.0, reply_view(r.1), r.2) == producer_step(phase, packet@),
{
    match (phase, packet) {
        (PublishPhase::AwaitPubAck, Packet::PubAck(_)) => (PublishPhase::Done, None, true),
        (PublishPhase::AwaitPubRec, Packet::PubRec(a)) => (
            PublishPhase::AwaitPubComp,
            Some(Packet::PubRel(PubRel { packet_id: a.packet_id })),
            false,
        ),
        (PublishPhase::AwaitPubComp, Packet::PubComp(_)) => (PublishPhase::Done, None, true),
        _ => (PublishPhase::Done, None, false),
    }
}

} // verus!
