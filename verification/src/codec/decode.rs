//! MQTT packet decoding (bytes to `Packet`).

use vstd::prelude::*;

use vstd::utf8::{decode_utf8, valid_utf8};

use crate::buf::bytes_copy_from_slice;
use crate::codec::error::{decoded_as, DecodeError, DecodeFailure};
use crate::codec::packet::{
    ConnAck, Connect, ConnectView, Packet, PacketView, PubAck, PubComp, PubRec, PubRel, Publish,
    PublishView, SubAck, SubAckView, Subscribe, SubscribeView, UnsubAck, Unsubscribe,
    UnsubscribeView,
};
use crate::codec::types::{
    connect_flags_of_byte, connect_flags_valid, fixed_header_of_byte, qos_of_value,
    return_code_of_value, suback_code_of_value, ConnectFlags, ConnectReturnCode, FixedHeader, QoS,
    SubAckCode, Subscription, SubscriptionView, Will, WillView,
};
use crate::codec::varint::{decode_variable_int, lemma_varint_prefix, varint_read, VarintRead};
use crate::strings::{bytes_contain, str_equal, string_from_utf8};

verus! {

/// Decode result: a packet with the number of bytes consumed, or an error.
pub type DecodeResult = Result<(Packet, usize), DecodeError>;

// ----------------------------------------------------------------------------
// Reading fields
// ----------------------------------------------------------------------------

/// The big-endian 16-bit value at `pos`.
pub open spec fn u16_at(b: Seq<u8>, pos: nat) -> nat {
    (b[pos as int] as nat) * 256 + (b[pos as int + 1] as nat)
}

/// Reading a 16-bit value at `pos`: the value and the position after it.
pub open spec fn u16_field(b: Seq<u8>, pos: nat) -> Result<(u16, nat), DecodeFailure> {
    if b.len() < pos + 2 {
        Err(DecodeFailure::Incomplete(2, "u16"@))
    } else {
        Ok((u16_at(b, pos) as u16, pos + 2))
    }
}

/// The raw bytes of the length-prefixed field at `pos` (when they are there).
pub open spec fn field_bytes(b: Seq<u8>, pos: nat) -> Seq<u8> {
    b.subrange(pos as int + 2, pos as int + 2 + u16_at(b, pos))
}

/// The bytes are well-formed UTF-8.
#[verifier::opaque]
pub open spec fn utf8_ok(bytes: Seq<u8>) -> bool {
    valid_utf8(bytes)
}

/// The characters that well-formed UTF-8 bytes encode.
#[verifier::opaque]
pub open spec fn utf8_chars(bytes: Seq<u8>) -> Seq<char> {
    decode_utf8(bytes)
}

/// Reading a length-prefixed UTF-8 string at `pos`: its characters and the
/// position after it.
pub open spec fn string_field(b: Seq<u8>, pos: nat) -> Result<(Seq<char>, nat), DecodeFailure> {
    if b.len() < pos + 2 {
        Err(DecodeFailure::Incomplete(2, "string length"@))
    } else if b.len() < pos + 2 + u16_at(b, pos) {
        Err(DecodeFailure::Incomplete(u16_at(b, pos), "string data"@))
    } else if !utf8_ok(field_bytes(b, pos)) {
        Err(DecodeFailure::InvalidUtf8)
    } else {
        Ok((utf8_chars(field_bytes(b, pos)), pos + 2 + u16_at(b, pos)))
    }
}

/// Reading length-prefixed binary data at `pos`: the bytes and the position
/// after them.
pub open spec fn binary_field(b: Seq<u8>, pos: nat) -> Result<(Seq<u8>, nat), DecodeFailure> {
    if b.len() < pos + 2 {
        Err(DecodeFailure::Incomplete(2, "binary length"@))
    } else if b.len() < pos + 2 + u16_at(b, pos) {
        Err(DecodeFailure::Incomplete(u16_at(b, pos), "binary data"@))
    } else {
        Ok((field_bytes(b, pos), pos + 2 + u16_at(b, pos)))
    }
}

/// Decode a length-prefixed UTF-8 string at `*pos`, advancing `*pos`.
fn decode_string(buf: &[u8], pos: &mut usize) -> (r: Result<String, DecodeError>)
    requires
        *old(pos) <= buf@.len(),
    ensures
        match string_field(buf@, *old(pos) as nat) {
            Ok((s, np)) => r matches Ok(x) && x@ == s && *final(pos) == np,
            Err(e) => r matches Err(x) && x@ == e,
        },
{
    reveal(utf8_ok);
    reveal(utf8_chars);
    if buf.len() - *pos < 2 {
        return Err(DecodeError::incomplete(2, "string length"));
    }
    let len = (buf[*pos] as usize) * 256 + buf[*pos + 1] as usize;
    *pos = *pos + 2;
    if buf.len() - *pos < len {
        return Err(DecodeError::incomplete(len, "string data"));
    }
    let string_bytes = &buf[*pos..*pos + len];
    *pos = *pos + len;
    match string_from_utf8(string_bytes) {
        Ok(s) => Ok(s),
        Err(e) => Err(DecodeError::InvalidUtf8(e)),
    }
}

/// Decode length-prefixed binary data at `*pos`, advancing `*pos`.
fn decode_bytes(buf: &[u8], pos: &mut usize) -> (r: Result<bytes::Bytes, DecodeError>)
    requires
        *old(pos) <= buf@.len(),
    ensures
        match binary_field(buf@, *old(pos) as nat) {
            Ok((d, np)) => r matches Ok(x) && crate::buf::bytes_seq(x) == d && *final(pos) == np,
            Err(e) => r matches Err(x) && x@ == e,
        },
{
    if buf.len() - *pos < 2 {
        return Err(DecodeError::incomplete(2, "binary length"));
    }
    let len = (buf[*pos] as usize) * 256 + buf[*pos + 1] as usize;
    *pos = *pos + 2;
    if buf.len() - *pos < len {
        return Err(DecodeError::incomplete(len, "binary data"));
    }
    let data = bytes_copy_from_slice(&buf[*pos..*pos + len]);
    *pos = *pos + len;
    Ok(data)
}

/// Decode a big-endian u16 at `*pos`, advancing `*pos`.
fn decode_u16(buf: &[u8], pos: &mut usize) -> (r: Result<u16, DecodeError>)
    requires
        *old(pos) <= buf@.len(),
    ensures
        match u16_field(buf@, *old(pos) as nat) {
            Ok((v, np)) => r == Ok::<u16, DecodeError>(v) && *final(pos) == np,
            Err(e) => r matches Err(x) && x@ == e,
        },
{
    if buf.len() - *pos < 2 {
        return Err(DecodeError::incomplete(2, "u16"));
    }
    let value = (buf[*pos] as u16) * 256 + buf[*pos + 1] as u16;
    *pos = *pos + 2;
    Ok(value)
}

// ----------------------------------------------------------------------------
// CONNECT
// ----------------------------------------------------------------------------

/// Reading the will fields that the flags announce, from `pos`.
pub open spec fn will_fields(b: Seq<u8>, pos: nat, flags: ConnectFlags) -> Result<
    (Option<WillView>, nat),
    DecodeFailure,
> {
    if flags.will {
        match string_field(b, pos) {
            Err(e) => Err(e),
            Ok((topic, p1)) => match binary_field(b, p1) {
                Err(e) => Err(e),
                Ok((message, p2)) => Ok(
                    (
                        Some(
                            WillView {
                                topic,
                                message,
                                qos: flags.will_qos,
                                retain: flags.will_retain,
                            },
                        ),
                        p2,
                    ),
                ),
            },
        }
    } else {
        Ok((None, pos))
    }
}

/// Reading the user name that the flags announce, from `pos`.
pub open spec fn username_field(b: Seq<u8>, pos: nat, flags: ConnectFlags) -> Result<
    (Option<Seq<char>>, nat),
    DecodeFailure,
> {
    if flags.username {
        match string_field(b, pos) {
            Err(e) => Err(e),
            Ok((u, p1)) => Ok((Some(u), p1)),
        }
    } else {
        Ok((None, pos))
    }
}

/// Reading the password that the flags announce, from `pos`.
pub open spec fn password_field(b: Seq<u8>, pos: nat, flags: ConnectFlags) -> Result<
    Option<Seq<u8>>,
    DecodeFailure,
> {
    if flags.password {
        match binary_field(b, pos) {
            Err(e) => Err(e),
            Ok((p, _)) => Ok(Some(p)),
        }
    } else {
        Ok(None)
    }
}

/// The payload of a CONNECT (after the protocol name, level and flags),
/// starting at `pos`.
pub open spec fn connect_rest(
    b: Seq<u8>,
    pos: nat,
    protocol_name: Seq<char>,
    protocol_level: u8,
    flags: ConnectFlags,
) -> Result<ConnectView, DecodeFailure> {
    match u16_field(b, pos) {
        Err(e) => Err(e),
        Ok((keep_alive, p1)) => match string_field(b, p1) {
            Err(e) => Err(e),
            Ok((client_id, p2)) => if client_id.len() == 0 && !flags.clean_session {
                Err(
                    DecodeFailure::ProtocolViolation(
                        "empty client ID requires clean_session=true"@,
                    ),
                )
            } else {
                match will_fields(b, p2, flags) {
                    Err(e) => Err(e),
                    Ok((will, p3)) => match username_field(b, p3, flags) {
                        Err(e) => Err(e),
                        Ok((username, p4)) => match password_field(b, p4, flags) {
                            Err(e) => Err(e),
                            Ok(password) => Ok(
                                ConnectView {
                                    protocol_name,
                                    protocol_level,
                                    flags,
                                    keep_alive,
                                    client_id,
                                    will,
                                    username,
                                    password,
                                },
                            ),
                        },
                    },
                }
            },
        },
    }
}

/// Decoding the body of a CONNECT packet (MQTT 3.1.1 §3.1). Protocol names
/// "MQTT" and "MQIsdp" and levels 3 and 4 are accepted.
pub open spec fn spec_decode_connect(b: Seq<u8>) -> Result<ConnectView, DecodeFailure> {
    match string_field(b, 0) {
        Err(e) => Err(e),
        Ok((name, p1)) => if name != "MQTT"@ && name != "MQIsdp"@ {
            Err(DecodeFailure::InvalidProtocolName(name))
        } else if b.len() < p1 + 1 {
            Err(DecodeFailure::Incomplete(1, "protocol level"@))
        } else if b[p1 as int] != 4 && b[p1 as int] != 3 {
            Err(DecodeFailure::UnsupportedProtocolLevel(b[p1 as int]))
        } else if b.len() < p1 + 2 {
            Err(DecodeFailure::Incomplete(1, "connect flags"@))
        } else {
            match connect_flags_of_byte(b[p1 as int + 1]) {
                None => Err(DecodeFailure::InvalidConnectFlags(b[p1 as int + 1])),
                Some(flags) => if !connect_flags_valid(flags) {
                    Err(DecodeFailure::InvalidConnectFlags(b[p1 as int + 1]))
                } else {
                    connect_rest(b, p1 + 2, name, b[p1 as int], flags)
                },
            }
        },
    }
}

/// Decode the body of a CONNECT packet.
fn decode_connect(buf: &[u8]) -> (r: Result<Connect, DecodeError>)
    ensures
        decoded_as(r, spec_decode_connect(buf@)),
{
    let mut pos: usize = 0;

    // Protocol name
    let protocol_name = decode_string(buf, &mut pos)?;
    if !str_equal(protocol_name.as_str(), "MQTT") && !str_equal(protocol_name.as_str(), "MQIsdp")
    {
        return Err(DecodeError::InvalidProtocolName(protocol_name));
    }
    // Protocol level
    if buf.len() - pos < 1 {
        return Err(DecodeError::incomplete(1, "protocol level"));
    }
    let protocol_level = buf[pos];
    pos = pos + 1;

    // Level 4 (MQTT 3.1.1) and level 3 (MQTT 3.1) are accepted
    if protocol_level != 4 && protocol_level != 3 {
        return Err(DecodeError::UnsupportedProtocolLevel(protocol_level));
    }
    // Connect flags
    if buf.len() - pos < 1 {
        return Err(DecodeError::incomplete(1, "connect flags"));
    }
    let flags_byte = buf[pos];
    pos = pos + 1;

    let flags = match ConnectFlags::from_byte(flags_byte) {
        Some(f) => f,
        None => return Err(DecodeError::InvalidConnectFlags(flags_byte)),
    };
    if !flags.validate() {
        return Err(DecodeError::InvalidConnectFlags(flags_byte));
    }
    // Keep alive
    let keep_alive = decode_u16(buf, &mut pos)?;

    // Client ID (empty only with clean_session=true)
    let client_id = decode_string(buf, &mut pos)?;
    if client_id.as_str().is_empty() && !flags.clean_session {
        return Err(
            DecodeError::ProtocolViolation("empty client ID requires clean_session=true".to_string()),
        );
    }
    // Will topic and message

    let will = if flags.will {
        let will_topic = decode_string(buf, &mut pos)?;
        let will_message = decode_bytes(buf, &mut pos)?;
        Some(Will { topic: will_topic, message: will_message, qos: flags.will_qos, retain: flags.will_retain })
    } else {
        None
    };

    // Username
    let username = if flags.username {
        Some(decode_string(buf, &mut pos)?)
    } else {
        None
    };

    // Password
    let password = if flags.password {
        Some(decode_bytes(buf, &mut pos)?)
    } else {
        None
    };

    Ok(
        Connect {
            protocol_name,
            protocol_level,
            flags,
            keep_alive,
            client_id,
            will,
            username,
            password,
        },
    )
}


// ----------------------------------------------------------------------------
// CONNACK and PUBLISH
// ----------------------------------------------------------------------------

/// Decoding the body of a CONNACK packet (MQTT 3.1.1 §3.2).
pub open spec fn spec_decode_connack(b: Seq<u8>) -> Result<ConnAck, DecodeFailure> {
    if b.len() < 2 {
        Err(DecodeFailure::Incomplete(2, "CONNACK payload"@))
    } else if b[0] >= 2 {
        Err(DecodeFailure::Malformed("invalid CONNACK flags"@))
    } else {
        match return_code_of_value(b[1]) {
            None => Err(DecodeFailure::InvalidReturnCode(b[1])),
            Some(code) => if code != ConnectReturnCode::Accepted && b[0] == 1 {
                Err(
                    DecodeFailure::ProtocolViolation(
                        "session present must be 0 when connection rejected"@,
                    ),
                )
            } else {
                Ok(ConnAck { session_present: b[0] == 1, return_code: code })
            },
        }
    }
}

/// Decode the body of a CONNACK packet.
fn decode_connack(buf: &[u8]) -> (r: Result<ConnAck, DecodeError>)
    ensures
        decoded_as(r, spec_decode_connack(buf@)),
{
    if buf.len() < 2 {
        return Err(DecodeError::incomplete(2, "CONNACK payload"));
    }
    // Byte 1: connect acknowledge flags; the reserved bits must be 0
    let ack_flags = buf[0];
    if ack_flags >= 2 {
        return Err(DecodeError::Malformed("invalid CONNACK flags".to_string()));
    }
    let session_present = ack_flags == 1;

    // Byte 2: connect return code
    let return_code = match ConnectReturnCode::from_u8(buf[1]) {
        Some(c) => c,
        None => return Err(DecodeError::InvalidReturnCode(buf[1])),
    };

    // Session present must be 0 if the connection was rejected
    if !return_code.is_accepted() && session_present {
        return Err(
            DecodeError::ProtocolViolation(
                "session present must be 0 when connection rejected".to_string(),
            ),
        );
    }
    Ok(ConnAck { session_present, return_code })
}

/// Decoding the body of a PUBLISH packet (MQTT 3.1.1 §3.3) whose fixed header
/// is `h`. The topic must be non-empty and hold neither `+` nor `#`.
pub open spec fn spec_decode_publish(b: Seq<u8>, h: FixedHeader) -> Result<
    PublishView,
    DecodeFailure,
> {
    match string_field(b, 0) {
        Err(e) => Err(e),
        Ok((topic, p1)) => if field_bytes(b, 0).len() == 0 {
            Err(DecodeFailure::InvalidTopicName("topic cannot be empty"@))
        } else if field_bytes(b, 0).contains(43u8) || field_bytes(b, 0).contains(35u8) {
            Err(DecodeFailure::InvalidTopicName("wildcards not allowed in PUBLISH topic"@))
        } else if h.qos != QoS::AtMostOnce {
            match u16_field(b, p1) {
                Err(e) => Err(e),
                Ok((id, p2)) => if id == 0 {
                    Err(DecodeFailure::ZeroPacketId)
                } else {
                    Ok(
                        PublishView {
                            dup: h.dup,
                            qos: h.qos,
                            retain: h.retain,
                            topic,
                            packet_id: Some(id),
                            payload: b.subrange(p2 as int, b.len() as int),
                        },
                    )
                },
            }
        } else {
            Ok(
                PublishView {
                    dup: h.dup,
                    qos: h.qos,
                    retain: h.retain,
                    topic,
                    packet_id: None,
                    payload: b.subrange(p1 as int, b.len() as int),
                },
            )
        },
    }
}

/// Decode the body of a PUBLISH packet.
fn decode_publish(buf: &[u8], header: FixedHeader) -> (r: Result<Publish, DecodeError>)
    ensures
        decoded_as(r, spec_decode_publish(buf@, header)),
{
    let mut pos: usize = 0;

    // Topic name
    let topic = decode_string(buf, &mut pos)?;

    // The topic's bytes: non-empty, no wildcards in a PUBLISH
    let topic_bytes = &buf[2..pos];
    assert(topic_bytes@ == field_bytes(buf@, 0));
    if topic_bytes.len() == 0 {
        return Err(DecodeError::InvalidTopicName("topic cannot be empty".to_string()));
    }
    if bytes_contain(topic_bytes, 43u8) || bytes_contain(topic_bytes, 35u8) {
        return Err(
            DecodeError::InvalidTopicName("wildcards not allowed in PUBLISH topic".to_string()),
        );
    }
    // Packet ID (only for QoS > 0)

    let packet_id = if header.qos != QoS::AtMostOnce {
        let id = decode_u16(buf, &mut pos)?;
        if id == 0 {
            return Err(DecodeError::ZeroPacketId);
        }
        Some(id)
    } else {
        None
    };

    // Payload is the remainder
    let payload = bytes_copy_from_slice(&buf[pos..buf.len()]);

    Ok(
        Publish {
            dup: header.dup,
            qos: header.qos,
            retain: header.retain,
            topic,
            packet_id,
            payload,
        },
    )
}

// ----------------------------------------------------------------------------
// Acknowledgments that carry only a packet identifier
// ----------------------------------------------------------------------------

/// Decoding a body that holds a non-zero packet identifier; `context` names
/// the packet in the `Incomplete` error.
pub open spec fn spec_decode_ack_id(b: Seq<u8>, context: Seq<char>) -> Result<
    u16,
    DecodeFailure,
> {
    if b.len() < 2 {
        Err(DecodeFailure::Incomplete(2, context))
    } else if u16_at(b, 0) == 0 {
        Err(DecodeFailure::ZeroPacketId)
    } else {
        Ok(u16_at(b, 0) as u16)
    }
}

/// Decode a body that holds a non-zero packet identifier.
fn decode_ack_id(buf: &[u8], context: &'static str) -> (r: Result<u16, DecodeError>)
    ensures
        match spec_decode_ack_id(buf@, context@) {
            Ok(id) => r == Ok::<u16, DecodeError>(id),
            Err(e) => r matches Err(x) && x@ == e,
        },
{
    if buf.len() < 2 {
        return Err(DecodeError::incomplete(2, context));
    }
    let packet_id = (buf[0] as u16) * 256 + buf[1] as u16;
    if packet_id == 0 {
        return Err(DecodeError::ZeroPacketId);
    }
    Ok(packet_id)
}

// ----------------------------------------------------------------------------
// SUBSCRIBE, SUBACK, UNSUBSCRIBE
// ----------------------------------------------------------------------------

/// Reading the subscription list of a SUBSCRIBE from `pos` to the end.
pub open spec fn subscriptions_from(b: Seq<u8>, pos: nat) -> Result<
    Seq<SubscriptionView>,
    DecodeFailure,
>
    decreases b.len() - pos,
{
    if pos >= b.len() {
        Ok(seq![])
    } else {
        match string_field(b, pos) {
            Err(e) => Err(e),
            Ok((filter, _)) => {
                let p1 = pos + 2 + u16_at(b, pos);
                if b.len() < p1 + 1 {
                    Err(DecodeFailure::Incomplete(1, "subscription QoS"@))
                } else if b[p1 as int] >= 4 {
                    Err(DecodeFailure::Malformed("invalid subscription QoS byte"@))
                } else {
                    match qos_of_value(b[p1 as int]) {
                        None => Err(DecodeFailure::InvalidQoS(b[p1 as int])),
                        Some(q) => match subscriptions_from(b, p1 + 1) {
                            Err(e) => Err(e),
                            Ok(rest) => Ok(
                                seq![SubscriptionView { topic_filter: filter, qos: q }] + rest,
                            ),
                        },
                    }
                }
            },
        }
    }
}

/// Decoding the body of a SUBSCRIBE packet (MQTT 3.1.1 §3.8).
pub open spec fn spec_decode_subscribe(b: Seq<u8>) -> Result<SubscribeView, DecodeFailure> {
    match u16_field(b, 0) {
        Err(e) => Err(e),
        Ok((id, p1)) => if id == 0 {
            Err(DecodeFailure::ZeroPacketId)
        } else {
            match subscriptions_from(b, p1) {
                Err(e) => Err(e),
                Ok(subs) => if subs.len() == 0 {
                    Err(DecodeFailure::EmptySubscriptions)
                } else {
                    Ok(SubscribeView { packet_id: id, subscriptions: subs })
                },
            }
        },
    }
}

/// Decode the body of a SUBSCRIBE packet.
fn decode_subscribe(buf: &[u8]) -> (r: Result<Subscribe, DecodeError>)
    ensures
        decoded_as(r, spec_decode_subscribe(buf@)),
{
    let mut pos: usize = 0;

    // Packet ID
    let packet_id = decode_u16(buf, &mut pos)?;
    if packet_id == 0 {
        return Err(DecodeError::ZeroPacketId);
    }
    // Subscription list

    let mut subscriptions: Vec<Subscription> = Vec::new();
    while pos < buf.len()
        invariant
            2 <= pos <= buf@.len(),
            u16_field(buf@, 0) == Ok::<(u16, nat), DecodeFailure>((packet_id, 2nat)),
            packet_id != 0,
            subscriptions_from(buf@, 2) == match subscriptions_from(buf@, pos as nat) {
                Ok(rest) => Ok(subscriptions@.map_values(|s: Subscription| s@) + rest),
                Err(e) => Err(e),
            },
        decreases buf@.len() - pos,
    {
        let ghost start = pos as nat;
        let topic_filter = decode_string(buf, &mut pos)?;
        if buf.len() - pos < 1 {
            return Err(DecodeError::incomplete(1, "subscription QoS"));
        }
        let qos_byte = buf[pos];
        pos = pos + 1;

        // Reserved bits must be 0
        if qos_byte >= 4 {
            return Err(DecodeError::Malformed("invalid subscription QoS byte".to_string()));
        }
        let qos = match QoS::from_u8(qos_byte) {
            Some(q) => q,
            None => return Err(DecodeError::InvalidQoS(qos_byte)),
        };
        let ghost before = subscriptions@.map_values(|s: Subscription| s@);
        subscriptions.push(Subscription { topic_filter, qos });
        proof {
            assert(subscriptions@.map_values(|s: Subscription| s@) =~= before.push(
                SubscriptionView { topic_filter: topic_filter@, qos },
            ));
            if let Ok(rest) = subscriptions_from(buf@, pos as nat) {
                assert(subscriptions_from(buf@, start) == Ok::<Seq<SubscriptionView>, DecodeFailure>(
                    seq![SubscriptionView { topic_filter: topic_filter@, qos }] + rest));
                assert(before + (seq![SubscriptionView { topic_filter: topic_filter@, qos }]
                    + rest) =~= before.push(SubscriptionView { topic_filter: topic_filter@, qos })
                    + rest);
            }
        }
    }
    proof {
        assert(subscriptions@.map_values(|s: Subscription| s@) + seq![] =~= subscriptions@.map_values(
            |s: Subscription| s@));
    }
    if subscriptions.len() == 0 {
        return Err(DecodeError::EmptySubscriptions);
    }
    Ok(Subscribe { packet_id, subscriptions })
}

/// Reading the return codes of a SUBACK from `pos` to the end.
pub open spec fn return_codes_from(b: Seq<u8>, pos: nat) -> Result<Seq<SubAckCode>, DecodeFailure>
    decreases b.len() - pos,
{
    if pos >= b.len() {
        Ok(seq![])
    } else {
        match suback_code_of_value(b[pos as int]) {
            None => Err(DecodeFailure::InvalidReturnCode(b[pos as int])),
            Some(c) => match return_codes_from(b, pos + 1) {
                Err(e) => Err(e),
                Ok(rest) => Ok(seq![c] + rest),
            },
        }
    }
}

/// Decoding the body of a SUBACK packet (MQTT 3.1.1 §3.9).
pub open spec fn spec_decode_suback(b: Seq<u8>) -> Result<SubAckView, DecodeFailure> {
    match u16_field(b, 0) {
        Err(e) => Err(e),
        Ok((id, p1)) => if id == 0 {
            Err(DecodeFailure::ZeroPacketId)
        } else {
            match return_codes_from(b, p1) {
                Err(e) => Err(e),
                Ok(codes) => if codes.len() == 0 {
                    Err(DecodeFailure::Malformed("SUBACK must contain at least one return code"@))
                } else {
                    Ok(SubAckView { packet_id: id, return_codes: codes })
                },
            }
        },
    }
}

/// Decode the body of a SUBACK packet.
fn decode_suback(buf: &[u8]) -> (r: Result<SubAck, DecodeError>)
    ensures
        decoded_as(r, spec_decode_suback(buf@)),
{
    let mut pos: usize = 0;

    // Packet ID
    let packet_id = decode_u16(buf, &mut pos)?;
    if packet_id == 0 {
        return Err(DecodeError::ZeroPacketId);
    }
    // Return codes

    let mut return_codes: Vec<SubAckCode> = Vec::new();
    while pos < buf.len()
        invariant
            2 <= pos <= buf@.len(),
            u16_field(buf@, 0) == Ok::<(u16, nat), DecodeFailure>((packet_id, 2nat)),
            packet_id != 0,
            return_codes_from(buf@, 2) == match return_codes_from(buf@, pos as nat) {
                Ok(rest) => Ok(return_codes@ + rest),
                Err(e) => Err(e),
            },
        decreases buf@.len() - pos,
    {
        let code = match SubAckCode::from_u8(buf[pos]) {
            Some(c) => c,
            None => return Err(DecodeError::InvalidReturnCode(buf[pos])),
        };
        let ghost before = return_codes@;
        return_codes.push(code);
        pos = pos + 1;
        proof {
            if let Ok(rest) = return_codes_from(buf@, pos as nat) {
                assert(before + (seq![code] + rest) =~= return_codes@ + rest);
            }
        }
    }
    assert(return_codes@ + seq![] =~= return_codes@);
    if return_codes.len() == 0 {
        return Err(
            DecodeError::Malformed("SUBACK must contain at least one return code".to_string()),
        );
    }
    Ok(SubAck { packet_id, return_codes })
}

/// Reading the topic filters of an UNSUBSCRIBE from `pos` to the end.
pub open spec fn filters_from(b: Seq<u8>, pos: nat) -> Result<Seq<Seq<char>>, DecodeFailure>
    decreases b.len() - pos,
{
    if pos >= b.len() {
        Ok(seq![])
    } else {
        match string_field(b, pos) {
            Err(e) => Err(e),
            Ok((filter, _)) => match filters_from(b, pos + 2 + u16_at(b, pos)) {
                Err(e) => Err(e),
                Ok(rest) => Ok(seq![filter] + rest),
            },
        }
    }
}

/// Decoding the body of an UNSUBSCRIBE packet (MQTT 3.1.1 §3.10).
pub open spec fn spec_decode_unsubscribe(b: Seq<u8>) -> Result<UnsubscribeView, DecodeFailure> {
    match u16_field(b, 0) {
        Err(e) => Err(e),
        Ok((id, p1)) => if id == 0 {
            Err(DecodeFailure::ZeroPacketId)
        } else {
            match filters_from(b, p1) {
                Err(e) => Err(e),
                Ok(filters) => if filters.len() == 0 {
                    Err(
                        DecodeFailure::Malformed(
                            "UNSUBSCRIBE must contain at least one topic filter"@,
                        ),
                    )
                } else {
                    Ok(UnsubscribeView { packet_id: id, topic_filters: filters })
                },
            }
        },
    }
}

/// Decode the body of an UNSUBSCRIBE packet.
fn decode_unsubscribe(buf: &[u8]) -> (r: Result<Unsubscribe, DecodeError>)
    ensures
        decoded_as(r, spec_decode_unsubscribe(buf@)),
{
    let mut pos: usize = 0;

    // Packet ID
    let packet_id = decode_u16(buf, &mut pos)?;
    if packet_id == 0 {
        return Err(DecodeError::ZeroPacketId);
    }
    // Topic filter list

    let mut topic_filters: Vec<String> = Vec::new();
    while pos < buf.len()
        invariant
            2 <= pos <= buf@.len(),
            u16_field(buf@, 0) == Ok::<(u16, nat), DecodeFailure>((packet_id, 2nat)),
            packet_id != 0,
            filters_from(buf@, 2) == match filters_from(buf@, pos as nat) {
                Ok(rest) => Ok(topic_filters@.map_values(|s: String| s@) + rest),
                Err(e) => Err(e),
            },
        decreases buf@.len() - pos,
    {
        let ghost start = pos as nat;
        let topic_filter = decode_string(buf, &mut pos)?;
        let ghost before = topic_filters@.map_values(|s: String| s@);
        let ghost fv = topic_filter@;
        topic_filters.push(topic_filter);
        proof {
            assert(topic_filters@.map_values(|s: String| s@) =~= before.push(fv));
            if let Ok(rest) = filters_from(buf@, pos as nat) {
                assert(before + (seq![fv] + rest) =~= before.push(fv) + rest);
            }
        }
    }
    assert(topic_filters@.map_values(|s: String| s@) + seq![] =~= topic_filters@.map_values(
        |s: String| s@,
    ));
    if topic_filters.len() == 0 {
        return Err(
            DecodeError::Malformed(
                "UNSUBSCRIBE must contain at least one topic filter".to_string(),
            ),
        );
    }
    Ok(Unsubscribe { packet_id, topic_filters })
}

// ----------------------------------------------------------------------------
// Whole packets
// ----------------------------------------------------------------------------

/// Decoding the body of a packet whose fixed header is `h` and whose
/// remaining length is `b.len()`.
pub open spec fn spec_decode_body(b: Seq<u8>, h: FixedHeader) -> Result<PacketView, DecodeFailure> {
    let t = h.packet_type;
    if t == 1 {
        match spec_decode_connect(b) {
            Ok(c) => Ok(PacketView::Connect(c)),
            Err(e) => Err(e),
        }
    } else if t == 2 {
        match spec_decode_connack(b) {
            Ok(c) => Ok(PacketView::ConnAck(c)),
            Err(e) => Err(e),
        }
    } else if t == 3 {
        match spec_decode_publish(b, h) {
            Ok(p) => Ok(PacketView::Publish(p)),
            Err(e) => Err(e),
        }
    } else if t == 4 {
        match spec_decode_ack_id(b, "PUBACK payload"@) {
            Ok(id) => Ok(PacketView::PubAck(PubAck { packet_id: id })),
            Err(e) => Err(e),
        }
    } else if t == 5 {
        match spec_decode_ack_id(b, "PUBREC payload"@) {
            Ok(id) => Ok(PacketView::PubRec(PubRec { packet_id: id })),
            Err(e) => Err(e),
        }
    } else if t == 6 {
        match spec_decode_ack_id(b, "PUBREL payload"@) {
            Ok(id) => Ok(PacketView::PubRel(PubRel { packet_id: id })),
            Err(e) => Err(e),
        }
    } else if t == 7 {
        match spec_decode_ack_id(b, "PUBCOMP payload"@) {
            Ok(id) => Ok(PacketView::PubComp(PubComp { packet_id: id })),
            Err(e) => Err(e),
        }
    } else if t == 8 {
        match spec_decode_subscribe(b) {
            Ok(p) => Ok(PacketView::Subscribe(p)),
            Err(e) => Err(e),
        }
    } else if t == 9 {
        match spec_decode_suback(b) {
            Ok(p) => Ok(PacketView::SubAck(p)),
            Err(e) => Err(e),
        }
    } else if t == 10 {
        match spec_decode_unsubscribe(b) {
            Ok(p) => Ok(PacketView::Unsubscribe(p)),
            Err(e) => Err(e),
        }
    } else if t == 11 {
        match spec_decode_ack_id(b, "UNSUBACK payload"@) {
            Ok(id) => Ok(PacketView::UnsubAck(UnsubAck { packet_id: id })),
            Err(e) => Err(e),
        }
    } else if t == 12 {
        if b.len() != 0 {
            Err(DecodeFailure::Malformed("PINGREQ must have zero remaining length"@))
        } else {
            Ok(PacketView::PingReq)
        }
    } else if t == 13 {
        if b.len() != 0 {
            Err(DecodeFailure::Malformed("PINGRESP must have zero remaining length"@))
        } else {
            Ok(PacketView::PingResp)
        }
    } else {
        if b.len() != 0 {
            Err(DecodeFailure::Malformed("DISCONNECT must have zero remaining length"@))
        } else {
            Ok(PacketView::Disconnect)
        }
    }
}

/// Decoding one packet at the start of `buf`: the packet and the number of
/// bytes it occupies (fixed header byte, remaining length, body), or the
/// first error in the order MQTT 3.1.1 checks them. Bytes after the packet
/// are left alone.
pub open spec fn spec_decode_packet(buf: Seq<u8>) -> Result<(PacketView, nat), DecodeFailure> {
    if buf.len() == 0 {
        Err(DecodeFailure::Incomplete(1, "fixed header"@))
    } else {
        match fixed_header_of_byte(buf[0]) {
            None => Err(DecodeFailure::InvalidFlags((buf[0] / 16) as u8, (buf[0] % 16) as u8)),
            Some(h) => if h.packet_type == 0 || h.packet_type > 14 {
                Err(DecodeFailure::InvalidPacketType(h.packet_type))
            } else {
                match varint_read(buf.skip(1)) {
                    VarintRead::Incomplete => Err(
                        DecodeFailure::Incomplete(1, "variable integer"@),
                    ),
                    VarintRead::Malformed => Err(DecodeFailure::MalformedVarint),
                    VarintRead::Value(len, n) => {
                        let total = 1 + n + len;
                        if buf.len() < total {
                            Err(DecodeFailure::Incomplete((total - buf.len()) as nat, "packet payload"@))
                        } else {
                            match spec_decode_body(buf.subrange(1 + n as int, total as int), h) {
                                Ok(p) => Ok((p, total)),
                                Err(e) => Err(e),
                            }
                        }
                    },
                }
            },
        }
    }
}

/// Every strict prefix of the bytes of a packet decodes to `Incomplete`:
/// a decoder that is given part of a packet asks for more data.
pub proof fn lemma_prefix_incomplete(b: Seq<u8>, i: nat)
    requires
        spec_decode_packet(b) is Ok,
        i < spec_decode_packet(b)->Ok_0.1,
    ensures
        spec_decode_packet(b.take(i as int)) is Err,
        spec_decode_packet(b.take(i as int))->Err_0 is Incomplete,
{
    let p = b.take(i as int);
    if i > 0 {
        assert(p[0] == b[0]);
        let s = b.skip(1);
        let q = p.skip(1);
        assert forall|j: int| 0 <= j < q.len() implies q[j] == s[j] by {
            assert(q[j] == p[j + 1]);
        }
        lemma_varint_prefix(s, q, 0);
    }
}

/// Decode the body of a packet whose fixed header is `header`.
fn decode_body(payload: &[u8], header: FixedHeader) -> (r: Result<Packet, DecodeError>)
    requires
        1 <= header.packet_type <= 14,
    ensures
        decoded_as(r, spec_decode_body(payload@, header)),
{
    let remaining_len = payload.len();
    // Decode based on packet type
    let packet = match header.packet_type {
        1 => Packet::Connect(decode_connect(payload)?),
        2 => Packet::ConnAck(decode_connack(payload)?),
        3 => Packet::Publish(decode_publish(payload, header)?),
        4 => Packet::PubAck(PubAck { packet_id: decode_ack_id(payload, "PUBACK payload")? }),
        5 => Packet::PubRec(PubRec { packet_id: decode_ack_id(payload, "PUBREC payload")? }),
        6 => Packet::PubRel(PubRel { packet_id: decode_ack_id(payload, "PUBREL payload")? }),
        7 => Packet::PubComp(PubComp { packet_id: decode_ack_id(payload, "PUBCOMP payload")? }),
        8 => Packet::Subscribe(decode_subscribe(payload)?),
        9 => Packet::SubAck(decode_suback(payload)?),
        10 => Packet::Unsubscribe(decode_unsubscribe(payload)?),
        11 => Packet::UnsubAck(UnsubAck { packet_id: decode_ack_id(payload, "UNSUBACK payload")? }),
        12 => {
            if remaining_len != 0 {
                return Err(
                    DecodeError::Malformed("PINGREQ must have zero remaining length".to_string()),
                );
            }
            Packet::PingReq
        },
        13 => {
            if remaining_len != 0 {
                return Err(
                    DecodeError::Malformed("PINGRESP must have zero remaining length".to_string()),
                );
            }
            Packet::PingResp
        },
        _ => {
            if remaining_len != 0 {
                return Err(
                    DecodeError::Malformed(
                        "DISCONNECT must have zero remaining length".to_string(),
                    ),
                );
            }
            Packet::Disconnect
        },
    };

    Ok(packet)
}

/// Decode a single MQTT packet from a byte buffer: the packet and the number
/// of bytes consumed.
///
/// If the buffer does not hold a complete packet, the result is
/// `Err(DecodeError::Incomplete)`: the caller should buffer more data.
pub fn decode_packet(buf: &[u8]) -> (r: DecodeResult)
    ensures
        match spec_decode_packet(buf@) {
            Ok((p, n)) => r matches Ok((x, m)) && x@ == p && m == n,
            Err(e) => r matches Err(x) && x@ == e,
        },
        r matches Ok((_, m)) ==> 2 <= m <= buf@.len(),
{
    if buf.len() == 0 {
        return Err(DecodeError::incomplete(1, "fixed header"));
    }
    // Parse the fixed header byte

    let header = match FixedHeader::from_byte(buf[0]) {
        Some(h) => h,
        None => return Err(DecodeError::InvalidFlags { packet_type: buf[0] / 16, flags: buf[0] % 16 }),
    };

    // Validate the packet type
    if header.packet_type == 0 || header.packet_type > 14 {
        return Err(DecodeError::InvalidPacketType(header.packet_type));
    }
    // Parse the remaining length

    let rest = &buf[1..buf.len()];
    assert(rest@ == buf@.skip(1));
    let (remaining_len, varint_bytes) = decode_variable_int(rest)?;
    let remaining_len = remaining_len as usize;

    // The whole packet size
    let header_size = 1 + varint_bytes;
    let total_size = header_size + remaining_len;

    // Check that the packet is complete
    if buf.len() < total_size {
        let needed = total_size - buf.len();
        assert(needed as nat == (1 + varint_bytes + remaining_len - buf@.len()) as nat);
        return Err(DecodeError::incomplete(needed, "packet payload"));
    }
    // The body

    let payload = &buf[header_size..total_size];

    let packet = decode_body(payload, header)?;
    Ok((packet, total_size))
}

/// A decoded PUBLISH carries the flags of its first byte (MQTT 3.1.1
/// §3.3.1): RETAIN is bit 0, the QoS bits 1 and 2, DUP bit 3.
pub proof fn lemma_decoded_publish_flags(buf: Seq<u8>)
    ensures
        spec_decode_packet(buf) matches Ok((PacketView::Publish(p), _)) ==> {
            &&& buf[0] / 16 == 3
            &&& p.retain == (buf[0] % 2 == 1)
            &&& p.dup == ((buf[0] / 8) % 2 == 1)
            &&& crate::codec::types::qos_value(p.qos) == (buf[0] / 2) % 4
        },
{
    if buf.len() > 0 {
        if let Some(h) = fixed_header_of_byte(buf[0]) {
            if h.packet_type == 3 {
                crate::codec::types::lemma_publish_flags(buf[0]);
            }
        }
    }
}

/// The return code of a decoded CONNACK is the code whose MQTT 3.1.1 value
/// is the second body byte: 0 to 5 are the six codes, any other value is
/// refused.
pub proof fn lemma_connack_return_code(b: Seq<u8>)
    requires
        b.len() >= 2,
        b[0] < 2,
    ensures
        spec_decode_connack(b) matches Ok(c) ==> crate::codec::types::return_code_value(c.return_code) == b[1]
            && c.session_present == (b[0] == 1),
        b[1] > 5 ==> spec_decode_connack(b) == Err::<ConnAck, DecodeFailure>(DecodeFailure::InvalidReturnCode(b[1])),
        b[0] == 0 && b[1] <= 5 ==> spec_decode_connack(b) is Ok,
        b[0] == 0 && b[1] == 1 ==> spec_decode_connack(b) == Ok::<ConnAck, DecodeFailure>(
            ConnAck { session_present: false, return_code: ConnectReturnCode::UnacceptableProtocolVersion },
        ),
        b[0] == 0 && b[1] == 2 ==> spec_decode_connack(b) == Ok::<ConnAck, DecodeFailure>(
            ConnAck { session_present: false, return_code: ConnectReturnCode::IdentifierRejected },
        ),
{
    crate::codec::types::lemma_return_code_values();
}

} // verus!

