//! Codec error types.

use vstd::prelude::*;

use crate::strings::{decimal, hex_digits, push_decimal, push_hex};

verus! {

/// Errors that can occur during packet decoding.
#[derive(Debug, Clone, PartialEq, Eq)]
pub enum DecodeError {
    /// Not enough data to complete decoding.
    Incomplete { needed: usize, context: &'static str },
    /// Invalid packet type (0 or greater than 14).
    InvalidPacketType(u8),
    /// Invalid fixed header flags for the packet type.
    InvalidFlags { packet_type: u8, flags: u8 },
    /// Malformed variable-length integer (more than 4 bytes).
    MalformedVarint,
    /// Invalid protocol name (not "MQTT" or "MQIsdp").
    InvalidProtocolName(String),
    /// Unsupported protocol level.
    UnsupportedProtocolLevel(u8),
    /// Invalid connect flags.
    InvalidConnectFlags(u8),
    /// Invalid QoS value (greater than 2).
    InvalidQoS(u8),
    /// Invalid UTF-8 string.
    InvalidUtf8(String),
    /// Invalid topic name (empty, or holding wildcards in a PUBLISH).
    InvalidTopicName(String),
    /// Invalid return code.
    InvalidReturnCode(u8),
    /// Packet too large.
    PacketTooLarge { size: usize, max: usize },
    /// Protocol violation.
    ProtocolViolation(String),
    /// Packet identifier is zero.
    ZeroPacketId,
    /// Empty subscription list.
    EmptySubscriptions,
    /// Generic malformed packet.
    Malformed(String),
}

/// What a decoding error says, as plain values. The text of an `InvalidUtf8`
/// error comes from std and is left out.
pub enum DecodeFailure {
    Incomplete(nat, Seq<char>),
    InvalidPacketType(u8),
    InvalidFlags(u8, u8),
    MalformedVarint,
    InvalidProtocolName(Seq<char>),
    UnsupportedProtocolLevel(u8),
    InvalidConnectFlags(u8),
    InvalidQoS(u8),
    InvalidUtf8,
    InvalidTopicName(Seq<char>),
    InvalidReturnCode(u8),
    PacketTooLarge(nat, nat),
    ProtocolViolation(Seq<char>),
    ZeroPacketId,
    EmptySubscriptions,
    Malformed(Seq<char>),
}

impl View for DecodeError {
    type V = DecodeFailure;

    open spec fn view(&self) -> DecodeFailure {
        match self {
            DecodeError::Incomplete { needed, context } => DecodeFailure::Incomplete(
                *needed as nat,
                context@,
            ),
            DecodeError::InvalidPacketType(t) => DecodeFailure::InvalidPacketType(*t),
            DecodeError::InvalidFlags { packet_type, flags } => DecodeFailure::InvalidFlags(
                *packet_type,
                *flags,
            ),
            DecodeError::MalformedVarint => DecodeFailure::MalformedVarint,
            DecodeError::InvalidProtocolName(n) => DecodeFailure::InvalidProtocolName(n@),
            DecodeError::UnsupportedProtocolLevel(l) => DecodeFailure::UnsupportedProtocolLevel(
                *l,
            ),
            DecodeError::InvalidConnectFlags(f) => DecodeFailure::InvalidConnectFlags(*f),
            DecodeError::InvalidQoS(q) => DecodeFailure::InvalidQoS(*q),
            DecodeError::InvalidUtf8(_) => DecodeFailure::InvalidUtf8,
            DecodeError::InvalidTopicName(m) => DecodeFailure::InvalidTopicName(m@),
            DecodeError::InvalidReturnCode(c) => DecodeFailure::InvalidReturnCode(*c),
            DecodeError::PacketTooLarge { size, max } => DecodeFailure::PacketTooLarge(
                *size as nat,
                *max as nat,
            ),
            DecodeError::ProtocolViolation(m) => DecodeFailure::ProtocolViolation(m@),
            DecodeError::ZeroPacketId => DecodeFailure::ZeroPacketId,
            DecodeError::EmptySubscriptions => DecodeFailure::EmptySubscriptions,
            DecodeError::Malformed(m) => DecodeFailure::Malformed(m@),
        }
    }
}

/// `r` is the decoding result that `s` describes: the same value (by view)
/// or the same error (by view).
pub open spec fn decoded_as<T: View>(r: Result<T, DecodeError>, s: Result<T::V, DecodeFailure>) -> bool {
    match s {
        Ok(v) => r matches Ok(x) && x@ == v,
        Err(e) => r matches Err(x) && x@ == e,
    }
}

impl DecodeError {
    /// True when this error means that more data is needed.
    pub fn is_incomplete(&self) -> (r: bool)
        ensures
            r == (self is Incomplete),
    {
        match self {
            DecodeError::Incomplete { .. } => true,
            _ => false,
        }
    }

    /// An `Incomplete` error with its context.
    pub fn incomplete(needed: usize, context: &'static str) -> (r: Self)
        ensures
            r == (DecodeError::Incomplete { needed, context }),
    {
        DecodeError::Incomplete { needed, context }
    }
}

/// The message of a decoding error.
pub open spec fn decode_error_message(e: DecodeError) -> Seq<char> {
    match e {
        DecodeError::Incomplete { needed, context } => "incomplete packet: need "@ + decimal(needed as nat)
            + " more bytes for "@ + context@,
        DecodeError::InvalidPacketType(t) => "invalid packet type: "@ + decimal(t as nat),
        DecodeError::InvalidFlags { packet_type, flags } => "invalid flags 0x"@ + hex_digits(flags as nat, 2)
            + " for packet type "@ + decimal(packet_type as nat),
        DecodeError::MalformedVarint => "malformed variable length integer (exceeds 4 bytes)"@,
        DecodeError::InvalidProtocolName(n) => "invalid protocol name: "@ + n@,
        DecodeError::UnsupportedProtocolLevel(l) => "unsupported protocol level: "@ + decimal(l as nat)
            + " (expected 4 for MQTT 3.1.1)"@,
        DecodeError::InvalidConnectFlags(f) => "invalid connect flags: 0x"@ + hex_digits(f as nat, 2),
        DecodeError::InvalidQoS(q) => "invalid QoS value: "@ + decimal(q as nat),
        DecodeError::InvalidUtf8(m) => "invalid UTF-8 string: "@ + m@,
        DecodeError::InvalidTopicName(m) => "invalid topic name: "@ + m@,
        DecodeError::InvalidReturnCode(c) => "invalid return code: "@ + decimal(c as nat),
        DecodeError::PacketTooLarge { size, max } => "packet too large: "@ + decimal(size as nat)
            + " bytes (max "@ + decimal(max as nat) + ")"@,
        DecodeError::ProtocolViolation(m) => "protocol violation: "@ + m@,
        DecodeError::ZeroPacketId => "packet identifier cannot be zero"@,
        DecodeError::EmptySubscriptions => "subscription list cannot be empty"@,
        DecodeError::Malformed(m) => "malformed packet: "@ + m@,
    }
}

/// `prefix` followed by `rest`.
fn joined(prefix: &str, rest: &str) -> (r: String)
    ensures
        r@ == prefix@ + rest@,
{
    let mut m = prefix.to_string();
    m.append(rest);
    m
}

/// `prefix` followed by the decimal digits of `n`.
fn with_decimal(prefix: &str, n: u64) -> (r: String)
    ensures
        r@ == prefix@ + decimal(n as nat),
{
    let mut m = prefix.to_string();
    push_decimal(&mut m, n);
    m
}

impl DecodeError {
    /// The error's message.
    pub fn message(&self) -> (r: String)
        ensures
            r@ == decode_error_message(*self),
    {
        match self {
            DecodeError::Incomplete { needed, context } => {
                let mut m = with_decimal("incomplete packet: need ", *needed as u64);
                m.append(" more bytes for ");
                m.append(context);
                m
            },
            DecodeError::InvalidPacketType(t) => with_decimal("invalid packet type: ", *t as u64),
            DecodeError::InvalidFlags { packet_type, flags } => {
                let mut m = "invalid flags 0x".to_string();
                push_hex(&mut m, *flags as u64, 2);
                m.append(" for packet type ");
                push_decimal(&mut m, *packet_type as u64);
                m
            },
            DecodeError::MalformedVarint => "malformed variable length integer (exceeds 4 bytes)".to_string(),
            DecodeError::InvalidProtocolName(n) => joined("invalid protocol name: ", n.as_str()),
            DecodeError::UnsupportedProtocolLevel(l) => {
                let mut m = with_decimal("unsupported protocol level: ", *l as u64);
                m.append(" (expected 4 for MQTT 3.1.1)");
                m
            },
            DecodeError::InvalidConnectFlags(f) => {
                let mut m = "invalid connect flags: 0x".to_string();
                push_hex(&mut m, *f as u64, 2);
                m
            },
            DecodeError::InvalidQoS(q) => with_decimal("invalid QoS value: ", *q as u64),
            DecodeError::InvalidUtf8(m) => joined("invalid UTF-8 string: ", m.as_str()),
            DecodeError::InvalidTopicName(m) => joined("invalid topic name: ", m.as_str()),
            DecodeError::InvalidReturnCode(c) => with_decimal("invalid return code: ", *c as u64),
            DecodeError::PacketTooLarge { size, max } => {
                let mut m = with_decimal("packet too large: ", *size as u64);
                m.append(" bytes (max ");
                push_decimal(&mut m, *max as u64);
                m.append(")");
                m
            },
            DecodeError::ProtocolViolation(m) => joined("protocol violation: ", m.as_str()),
            DecodeError::ZeroPacketId => "packet identifier cannot be zero".to_string(),
            DecodeError::EmptySubscriptions => "subscription list cannot be empty".to_string(),
            DecodeError::Malformed(m) => joined("malformed packet: ", m.as_str()),
        }
    }
}

/// What an encoding error says, as plain values.
pub enum EncodeFailure {
    PayloadTooLarge(nat),
    InvalidTopicName(Seq<char>),
    MissingField(Seq<char>),
    InvalidState(Seq<char>),
    BufferWrite,
}

/// Errors that can occur during packet encoding.
#[derive(Debug, Clone, PartialEq, Eq)]
pub enum EncodeError {
    /// Packet too large to encode (remaining length above 268435455).
    PayloadTooLarge { size: usize },
    /// Invalid topic name.
    InvalidTopicName(String),
    /// Missing required field.
    MissingField(&'static str),
    /// Invalid packet state.
    InvalidState(String),
    /// Buffer write error.
    BufferWrite,
}

impl View for EncodeError {
    type V = EncodeFailure;

    open spec fn view(&self) -> EncodeFailure {
        match self {
            EncodeError::PayloadTooLarge { size } => EncodeFailure::PayloadTooLarge(*size as nat),
            EncodeError::InvalidTopicName(m) => EncodeFailure::InvalidTopicName(m@),
            EncodeError::MissingField(m) => EncodeFailure::MissingField(m@),
            EncodeError::InvalidState(m) => EncodeFailure::InvalidState(m@),
            EncodeError::BufferWrite => EncodeFailure::BufferWrite,
        }
    }
}

/// The message of an encoding error.
pub open spec fn encode_error_message(e: EncodeError) -> Seq<char> {
    match e {
        EncodeError::PayloadTooLarge { size } => "payload too large: "@ + decimal(size as nat)
            + " bytes (max remaining length is 268435455)"@,
        EncodeError::InvalidTopicName(m) => "invalid topic name: "@ + m@,
        EncodeError::MissingField(m) => "missing required field: "@ + m@,
        EncodeError::InvalidState(m) => "invalid packet state: "@ + m@,
        EncodeError::BufferWrite => "buffer write error"@,
    }
}

impl EncodeError {
    /// The error's message.
    pub fn message(&self) -> (r: String)
        ensures
            r@ == encode_error_message(*self),
    {
        match self {
            EncodeError::PayloadTooLarge { size } => {
                let mut m = with_decimal("payload too large: ", *size as u64);
                m.append(" bytes (max remaining length is 268435455)");
                m
            },
            EncodeError::InvalidTopicName(m) => joined("invalid topic name: ", m.as_str()),
            EncodeError::MissingField(m) => joined("missing required field: ", m),
            EncodeError::InvalidState(m) => joined("invalid packet state: ", m.as_str()),
            EncodeError::BufferWrite => "buffer write error".to_string(),
        }
    }
}

} // verus!
