//! Tests of the command-line clients' decisions.

use bytes::Bytes;

use mqtt_broker::clients::{consumer_on_packet, phase_after_publish, producer_on_packet, PublishPhase};
use mqtt_broker::codec::{Packet, PubAck, PubComp, PubRec, PubRel, Publish, QoS};

#[test]
fn consumer_acknowledges_by_qos() {
    let p0 = Packet::Publish(Publish::new("t", Bytes::from("a")));
    let step = consumer_on_packet(0, None, &p0);
    assert_eq!(step.received, 1);
    assert!(step.reply.is_none());
    assert!(!step.stop);

    let p1 = Packet::Publish(Publish::with_qos("t", Bytes::from("a"), QoS::AtLeastOnce, 7));
    let step = consumer_on_packet(1, None, &p1);
    assert_eq!(step.received, 2);
    assert!(matches!(step.reply, Some(Packet::PubAck(PubAck { packet_id: 7 }))));

    let p2 = Packet::Publish(Publish::with_qos("t", Bytes::from("a"), QoS::ExactlyOnce, 9));
    let step = consumer_on_packet(2, None, &p2);
    assert_eq!(step.received, 3);
    assert!(matches!(step.reply, Some(Packet::PubRec(PubRec { packet_id: 9 }))));

    let step = consumer_on_packet(3, None, &Packet::PubRel(PubRel { packet_id: 9 }));
    assert_eq!(step.received, 3);
    assert!(matches!(step.reply, Some(Packet::PubComp(PubComp { packet_id: 9 }))));
    assert!(!step.stop);

    let step = consumer_on_packet(3, Some(1), &Packet::PingResp);
    assert_eq!(step.received, 3);
    assert!(step.reply.is_none());
    assert!(!step.stop);
}

#[test]
fn consumer_stops_at_its_limit() {
    let p = Packet::Publish(Publish::new("t", Bytes::from("a")));
    assert!(!consumer_on_packet(0, Some(2), &p).stop);
    assert!(consumer_on_packet(1, Some(2), &p).stop);
    assert!(consumer_on_packet(0, Some(0), &p).stop);
}

#[test]
fn producer_handshakes() {
    assert_eq!(phase_after_publish(QoS::AtMostOnce), PublishPhase::Done);
    assert_eq!(phase_after_publish(QoS::AtLeastOnce), PublishPhase::AwaitPubAck);
    assert_eq!(phase_after_publish(QoS::ExactlyOnce), PublishPhase::AwaitPubRec);

    let (next, reply, done) = producer_on_packet(PublishPhase::AwaitPubAck, &Packet::PubAck(PubAck { packet_id: 1 }));
    assert_eq!(next, PublishPhase::Done);
    assert!(reply.is_none());
    assert!(done);

    let (next, reply, done) = producer_on_packet(PublishPhase::AwaitPubRec, &Packet::PubRec(PubRec { packet_id: 1 }));
    assert_eq!(next, PublishPhase::AwaitPubComp);
    assert!(matches!(reply, Some(Packet::PubRel(PubRel { packet_id: 1 }))));
    assert!(!done);

    let (next, reply, done) =
        producer_on_packet(PublishPhase::AwaitPubComp, &Packet::PubComp(PubComp { packet_id: 1 }));
    assert_eq!(next, PublishPhase::Done);
    assert!(reply.is_none());
    assert!(done);

    let (next, reply, done) = producer_on_packet(PublishPhase::AwaitPubAck, &Packet::PubRec(PubRec { packet_id: 1 }));
    assert_eq!(next, PublishPhase::Done);
    assert!(reply.is_none());
    assert!(!done);
}
