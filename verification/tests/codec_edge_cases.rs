//! Edge cases of the MQTT packet codec: large payloads, many
//! subscriptions, UTF-8 topics and partial input.

use bytes::Bytes;

use mqtt_broker::codec::{decode_packet, encode_packet, DecodeError, Packet, Publish, QoS, Subscribe, Subscription};

#[test]
fn test_large_payload() {
    // Test with ~100KB payload
    let payload = Bytes::from(vec![0xAB; 100_000]);
    let packet = Publish::new("test/large", payload.clone());

    let encoded = encode_packet(&Packet::Publish(packet)).unwrap();
    let (decoded, _) = decode_packet(&encoded).unwrap();

    if let Packet::Publish(decoded) = decoded {
        assert_eq!(decoded.payload.len(), 100_000);
        assert_eq!(decoded.payload, payload);
    } else {
        panic!("Expected PUBLISH packet");
    }
}

#[test]
fn test_many_subscriptions() {
    // Test with 100 subscriptions
    let subscriptions: Vec<Subscription> = (0..100)
        .map(|i| Subscription {
            topic_filter: format!("topic/{}/sub", i),
            qos: QoS::from_u8((i % 3) as u8).unwrap(),
        })
        .collect();

    let packet = Subscribe::new(1, subscriptions.clone());

    let encoded = encode_packet(&Packet::Subscribe(packet)).unwrap();
    let (decoded, _) = decode_packet(&encoded).unwrap();

    if let Packet::Subscribe(decoded) = decoded {
        assert_eq!(decoded.subscriptions.len(), 100);
    } else {
        panic!("Expected SUBSCRIBE packet");
    }
}

#[test]
fn test_unicode_topic() {
    // MQTT allows UTF-8 topics
    let topic = "sensors/温度/北京";
    let packet = Publish::new(topic, Bytes::from("25°C"));

    let encoded = encode_packet(&Packet::Publish(packet)).unwrap();
    let (decoded, _) = decode_packet(&encoded).unwrap();

    if let Packet::Publish(decoded) = decoded {
        assert_eq!(decoded.topic, topic);
    } else {
        panic!("Expected PUBLISH packet");
    }
}

#[test]
fn test_streaming_decode() {
    // Simulate streaming: feed bytes one at a time
    let packet = Publish::new("test/stream", Bytes::from("hello"));
    let encoded = encode_packet(&Packet::Publish(packet)).unwrap();

    for i in 0..encoded.len() - 1 {
        let partial = &encoded[..i + 1];
        let result = decode_packet(partial);
        assert!(
            matches!(result, Err(DecodeError::Incomplete { .. })),
            "Expected Incomplete for {} bytes, got {:?}",
            i + 1,
            result
        );
    }

    // Full packet should decode
    let (decoded, consumed) = decode_packet(&encoded).unwrap();
    assert_eq!(consumed, encoded.len());
    assert!(matches!(decoded, Packet::Publish(_)));
}
