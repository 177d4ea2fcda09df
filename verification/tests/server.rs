//! Tests of clients, the packet handler and the server statistics.

use bytes::Bytes;

use mqtt_broker::codec::{
    ConnAck, Connect, ConnectReturnCode, Packet, PubAck, PubComp, PubRec, PubRel, Publish, QoS,
    SubAck, SubAckCode, Subscribe, Subscription, UnsubAck, Unsubscribe,
};
use mqtt_broker::router::MessageRouter;
use mqtt_broker::server::client::{auto_client_id, keep_alive_elapsed};
use mqtt_broker::server::handler::response_plan;
use mqtt_broker::server::{
    connection_step, Client, ClientState, ClientStats, ConnectionEvent, ConnectionPhase, HandleResult,
    PacketHandler, ServerStats,
};

#[test]
fn test_client_stats() {
    let mut stats = ClientStats::default();

    stats.record_received(100);
    stats.record_sent(50);
    stats.record_publish();
    stats.record_delivery();

    assert_eq!(stats.packets_received, 1);
    assert_eq!(stats.packets_sent, 1);
    assert_eq!(stats.bytes_received, 100);
    assert_eq!(stats.bytes_sent, 50);
    assert_eq!(stats.messages_published, 1);
    assert_eq!(stats.messages_delivered, 1);
}

#[test]
fn test_new_client() {
    let client = Client::new();

    assert!(client.is_connecting());
    assert!(!client.is_connected());
    assert!(client.client_id.is_empty());
}

#[test]
fn test_client_initialize() {
    let mut client = Client::new();

    client.initialize("test-client".to_string(), true, 60, None, 1);

    assert!(client.is_connected());
    assert_eq!(client.client_id, "test-client");
    assert!(client.clean_session);
    assert_eq!(client.keep_alive, 60);
    assert!(client.connection_duration().is_some());
}

#[test]
fn test_client_auto_id_generation() {
    let mut client = Client::new();

    client.initialize(String::new(), true, 0, None, 1);

    assert!(client.client_id.starts_with("auto-"));
    // "auto-" and 16 hexadecimal digits
    assert_eq!(client.client_id.len(), 21);
    assert_eq!(client.client_id, "auto-0000000000000001");
}

#[test]
fn auto_client_ids_are_hexadecimal() {
    assert_eq!(auto_client_id(0), "auto-0000000000000000");
    assert_eq!(auto_client_id(255), "auto-00000000000000ff");
    assert_eq!(auto_client_id(0x1234_abcd), "auto-000000001234abcd");
    assert_eq!(auto_client_id(u64::MAX), "auto-ffffffffffffffff");
}

#[test]
fn test_client_keep_alive() {
    let mut client = Client::new();
    client.initialize("test".to_string(), true, 1, None, 1);

    // Just connected: not expired
    assert!(!client.is_keep_alive_expired());

    // With keep-alive 0 it never expires
    client.keep_alive = 0;
    assert!(!client.is_keep_alive_expired());
}

#[test]
fn keep_alive_allows_one_and_a_half_intervals() {
    assert!(!keep_alive_elapsed(0, 1_000_000));
    // 10 s: expired after more than 15 s
    assert!(!keep_alive_elapsed(10, 15));
    assert!(keep_alive_elapsed(10, 16));
    // 3 s: 4.5 s rounded down to 4
    assert!(!keep_alive_elapsed(3, 4));
    assert!(keep_alive_elapsed(3, 5));
    assert!(keep_alive_elapsed(u16::MAX, 98_303));
    assert!(!keep_alive_elapsed(u16::MAX, 98_302));
}

#[test]
fn test_client_disconnect() {
    let mut client = Client::new();
    client.initialize("test".to_string(), true, 0, None, 1);

    assert!(client.is_connected());

    client.disconnect();
    assert!(!client.is_connected());
    assert!(matches!(client.state, ClientState::Disconnecting));

    client.mark_disconnected();
    assert!(matches!(client.state, ClientState::Disconnected));
}

#[test]
fn test_client_subscriptions() {
    let mut client = Client::new();
    client.initialize("test".to_string(), true, 0, None, 1);

    client.subscribe("test/+/topic", QoS::AtLeastOnce);
    client.subscribe("sensor/#", QoS::ExactlyOnce);

    assert_eq!(client.subscriptions().len(), 2);

    let removed = client.unsubscribe("test/+/topic");
    assert!(removed);
    assert_eq!(client.subscriptions().len(), 1);

    let removed = client.unsubscribe("nonexistent");
    assert!(!removed);
}

fn connected(handler: &mut PacketHandler, id: &str, clean: bool) -> Client {
    let mut client = Client::new();
    let connect = Connect::new(id).clean_session(clean);
    let result = handler.handle(&mut client, Packet::Connect(connect));
    assert!(matches!(
        result,
        HandleResult::Response(Packet::ConnAck(ConnAck { session_present: false, return_code: ConnectReturnCode::Accepted }))
    ));
    client
}

#[test]
fn handler_accepts_connect() {
    let mut handler = PacketHandler::new(MessageRouter::new());
    let client = connected(&mut handler, "client-1", true);
    assert!(client.is_connected());
    assert_eq!(client.client_id, "client-1");
}

#[test]
fn handler_numbers_anonymous_clients() {
    let mut handler = PacketHandler::new(MessageRouter::new());
    let first = connected(&mut handler, "", true);
    let named = connected(&mut handler, "named", true);
    let second = connected(&mut handler, "", true);
    assert_eq!(first.client_id, "auto-0000000000000001");
    assert_eq!(named.client_id, "named");
    assert_eq!(second.client_id, "auto-0000000000000002");
}

#[test]
fn handler_rejects_bad_connects() {
    let mut handler = PacketHandler::new(MessageRouter::new());

    // Wrong protocol level
    let mut client = Client::new();
    let mut connect = Connect::new("c");
    connect.protocol_level = 3;
    let result = handler.handle(&mut client, Packet::Connect(connect));
    assert!(matches!(
        result,
        HandleResult::Response(Packet::ConnAck(ConnAck {
            return_code: ConnectReturnCode::UnacceptableProtocolVersion,
            ..
        }))
    ));
    assert!(client.is_connecting());

    // Empty identifier without a clean session
    let connect = Connect::new("").clean_session(false);
    let result = handler.handle(&mut client, Packet::Connect(connect));
    assert!(matches!(
        result,
        HandleResult::Response(Packet::ConnAck(ConnAck { return_code: ConnectReturnCode::IdentifierRejected, .. }))
    ));

    // A second CONNECT once connected
    let mut client = connected(&mut handler, "c", true);
    let result = handler.handle(&mut client, Packet::Connect(Connect::new("c")));
    match result {
        HandleResult::Error(m) => assert_eq!(m, "CONNECT received in wrong state"),
        other => panic!("unexpected {:?}", other),
    }
}

#[test]
fn handler_requires_connection() {
    let mut handler = PacketHandler::new(MessageRouter::new());
    let mut client = Client::new();
    for packet in [
        Packet::Publish(Publish::new("t", Bytes::new())),
        Packet::PubAck(PubAck { packet_id: 1 }),
        Packet::PubRec(PubRec { packet_id: 1 }),
        Packet::PubRel(PubRel { packet_id: 1 }),
        Packet::PubComp(PubComp { packet_id: 1 }),
        Packet::Subscribe(Subscribe::single(1, "t", QoS::AtMostOnce)),
        Packet::Unsubscribe(Unsubscribe::single(1, "t")),
        Packet::PingReq,
    ] {
        match handler.handle(&mut client, packet) {
            HandleResult::Error(m) => assert_eq!(m, "Not connected"),
            other => panic!("unexpected {:?}", other),
        }
    }
    match handler.handle(&mut client, Packet::PingResp) {
        HandleResult::Error(m) => assert_eq!(m, "Unexpected packet type from client"),
        other => panic!("unexpected {:?}", other),
    }
}

#[test]
fn handler_acknowledges_publishes() {
    let mut handler = PacketHandler::new(MessageRouter::new());
    let mut client = connected(&mut handler, "pub", true);

    let r = handler.handle(&mut client, Packet::Publish(Publish::new("a/b", Bytes::from("x"))));
    assert!(matches!(r, HandleResult::NoResponse));

    let p = Publish::with_qos("a/b", Bytes::from("x"), QoS::AtLeastOnce, 7);
    let r = handler.handle(&mut client, Packet::Publish(p));
    assert!(matches!(r, HandleResult::Response(Packet::PubAck(PubAck { packet_id: 7 }))));

    let p = Publish::with_qos("a/b", Bytes::from("x"), QoS::ExactlyOnce, 8);
    let r = handler.handle(&mut client, Packet::Publish(p));
    assert!(matches!(r, HandleResult::Response(Packet::PubRec(PubRec { packet_id: 8 }))));

    let r = handler.handle(&mut client, Packet::PubRel(PubRel { packet_id: 8 }));
    assert!(matches!(r, HandleResult::Response(Packet::PubComp(PubComp { packet_id: 8 }))));

    let r = handler.handle(&mut client, Packet::PubRec(PubRec { packet_id: 9 }));
    assert!(matches!(r, HandleResult::Response(Packet::PubRel(PubRel { packet_id: 9 }))));

    let r = handler.handle(&mut client, Packet::PingReq);
    assert!(matches!(r, HandleResult::Response(Packet::PingResp)));

    assert_eq!(client.stats.messages_published, 3);
}

#[test]
fn handler_reports_retain_errors() {
    let mut handler = PacketHandler::new(MessageRouter::with_retain_limits(10, 2));
    let mut client = connected(&mut handler, "pub", true);
    let p = Publish::new("a/b", Bytes::from("too long")).retain(true);
    match handler.handle(&mut client, Packet::Publish(p)) {
        HandleResult::Error(m) => {
            assert_eq!(m, "Route error: Retain error: Payload too large: 8 bytes (max: 2)")
        }
        other => panic!("unexpected {:?}", other),
    }
}

#[test]
fn handler_subscribe_gets_suback_and_retained() {
    let mut handler = PacketHandler::new(MessageRouter::new());
    let mut publisher = connected(&mut handler, "pub", true);
    let p = Publish::new("sensor/1/temp", Bytes::from("20")).retain(true);
    handler.handle(&mut publisher, Packet::Publish(p));

    let mut client = connected(&mut handler, "sub", true);
    let subscribe = Subscribe::new(
        5,
        vec![
            Subscription { topic_filter: "sensor/+/temp".to_string(), qos: QoS::AtLeastOnce },
            Subscription { topic_filter: "bad/#/filter".to_string(), qos: QoS::AtMostOnce },
            Subscription { topic_filter: "other".to_string(), qos: QoS::ExactlyOnce },
        ],
    );
    match handler.handle(&mut client, Packet::Subscribe(subscribe)) {
        HandleResult::Responses(packets) => {
            assert_eq!(packets.len(), 2);
            assert_eq!(
                packets[0],
                Packet::SubAck(SubAck {
                    packet_id: 5,
                    return_codes: vec![SubAckCode::SuccessQoS1, SubAckCode::Failure, SubAckCode::SuccessQoS2],
                })
            );
            match &packets[1] {
                Packet::Publish(p) => {
                    assert_eq!(p.topic, "sensor/1/temp");
                    assert_eq!(p.payload, Bytes::from("20"));
                    assert!(p.retain);
                    assert_eq!(p.qos, QoS::AtMostOnce);
                }
                other => panic!("unexpected {:?}", other),
            }
        }
        other => panic!("unexpected {:?}", other),
    }
    assert_eq!(client.subscriptions().len(), 2);

    let r = handler.handle(&mut client, Packet::Unsubscribe(Unsubscribe::single(6, "other")));
    assert!(matches!(r, HandleResult::Response(Packet::UnsubAck(UnsubAck { packet_id: 6 }))));
    assert_eq!(client.subscriptions().len(), 1);
}

#[test]
fn handler_disconnect_removes_clean_subscriptions() {
    let mut handler = PacketHandler::new(MessageRouter::new());
    let mut clean = connected(&mut handler, "clean", true);
    let mut kept = connected(&mut handler, "kept", false);
    handler.handle(&mut clean, Packet::Subscribe(Subscribe::single(1, "a", QoS::AtMostOnce)));
    handler.handle(&mut kept, Packet::Subscribe(Subscribe::single(1, "a", QoS::AtMostOnce)));
    assert_eq!(handler.router().stats().subscription_count, 2);

    assert!(matches!(handler.handle(&mut clean, Packet::Disconnect), HandleResult::Disconnect));
    assert!(matches!(clean.state, ClientState::Disconnecting));
    assert_eq!(handler.router().stats().subscription_count, 1);

    assert!(matches!(handler.handle(&mut kept, Packet::Disconnect), HandleResult::Disconnect));
    assert_eq!(handler.router().stats().subscription_count, 1);
}

#[test]
fn handler_delivers_queued_messages() {
    let handler = PacketHandler::new(MessageRouter::new());
    let mut client = Client::new();
    client.initialize("c".to_string(), false, 0, None, 1);
    client.session.queue_message(mqtt_broker::session::QueuedMessage {
        topic: "t/1".to_string(),
        payload: Bytes::from("one"),
        qos: QoS::AtLeastOnce,
        retain: false,
        queued_at: std::time::Instant::now(),
    });
    client.session.queue_message(mqtt_broker::session::QueuedMessage {
        topic: "t/2".to_string(),
        payload: Bytes::from("two"),
        qos: QoS::AtMostOnce,
        retain: true,
        queued_at: std::time::Instant::now(),
    });
    let packets = handler.get_pending_messages(&mut client);
    assert_eq!(packets.len(), 2);
    assert_eq!(packets[0], Packet::Publish(Publish::new("t/1", Bytes::from("one"))));
    assert_eq!(packets[1], Packet::Publish(Publish::new("t/2", Bytes::from("two"))));
    assert_eq!(client.session.queued_message_count(), 0);
}

#[test]
fn response_plan_sends_and_disconnects() {
    let (p, d) = response_plan(HandleResult::Response(Packet::PingResp));
    assert_eq!(p, vec![Packet::PingResp]);
    assert!(!d);
    let (p, d) = response_plan(HandleResult::Responses(vec![Packet::PingResp, Packet::PingReq]));
    assert_eq!(p.len(), 2);
    assert!(!d);
    let (p, d) = response_plan(HandleResult::NoResponse);
    assert!(p.is_empty() && !d);
    let (p, d) = response_plan(HandleResult::Disconnect);
    assert!(p.is_empty() && d);
    let (p, d) = response_plan(HandleResult::Error("x".to_string()));
    assert!(p.is_empty() && d);
}

#[test]
fn test_server_stats() {
    let router = MessageRouter::new();
    let stats = ServerStats::collect(0, &router);
    assert_eq!(stats.connected_clients, 0);
    assert_eq!(stats.total_subscriptions, 0);
    assert_eq!(stats.retained_messages, 0);
}

#[test]
fn connection_step_first_packet_must_connect() {
    let mut handler = PacketHandler::new(MessageRouter::new());

    let mut client = Client::new();
    let action = connection_step(
        &mut handler,
        &mut client,
        ConnectionPhase::AwaitingConnect,
        ConnectionEvent::Packet(Packet::Connect(Connect::new("c1"))),
    );
    assert_eq!(action.next, ConnectionPhase::Connected);
    assert!(!action.release);
    assert_eq!(action.send.len(), 1);
    assert!(matches!(
        action.send[0],
        Packet::ConnAck(ConnAck { session_present: false, return_code: ConnectReturnCode::Accepted })
    ));

    // Anything else first ends the connection, without an answer
    let mut other = Client::new();
    let action = connection_step(
        &mut handler,
        &mut other,
        ConnectionPhase::AwaitingConnect,
        ConnectionEvent::Packet(Packet::PingReq),
    );
    assert_eq!(action.next, ConnectionPhase::Finished);
    assert!(!action.release);
    assert!(action.send.is_empty());

    let mut silent = Client::new();
    let action = connection_step(&mut handler, &mut silent, ConnectionPhase::AwaitingConnect, ConnectionEvent::Ended);
    assert_eq!(action.next, ConnectionPhase::Finished);
    assert!(!action.release);
}

#[test]
fn connection_step_while_connected() {
    let mut handler = PacketHandler::new(MessageRouter::new());
    let mut client = connected(&mut handler, "c1", true);

    let action = connection_step(
        &mut handler,
        &mut client,
        ConnectionPhase::Connected,
        ConnectionEvent::Packet(Packet::PingReq),
    );
    assert_eq!(action.next, ConnectionPhase::Connected);
    assert!(!action.release);
    assert!(matches!(action.send.as_slice(), [Packet::PingResp]));

    let action = connection_step(
        &mut handler,
        &mut client,
        ConnectionPhase::Connected,
        ConnectionEvent::Packet(Packet::Disconnect),
    );
    assert_eq!(action.next, ConnectionPhase::Finished);
    assert!(action.release);
    assert!(action.send.is_empty());

    let mut again = connected(&mut handler, "c2", true);
    let action = connection_step(&mut handler, &mut again, ConnectionPhase::Connected, ConnectionEvent::Ended);
    assert_eq!(action.next, ConnectionPhase::Finished);
    assert!(action.release);
}
