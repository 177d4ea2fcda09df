//! MQTT primitive types and flags.

use vstd::prelude::*;

use bytes::Bytes;

use crate::buf::bytes_seq;

verus! {

/// Quality of Service levels per MQTT 3.1.1 §4.3.
#[derive(Debug, Clone, Copy, PartialEq, Eq, Hash, Structural)]
pub enum QoS {
    /// At most once delivery (fire and forget).
    AtMostOnce,
    /// At least once delivery (acknowledged).
    AtLeastOnce,
    /// Exactly once delivery (4-way handshake).
    ExactlyOnce,
}

/// The wire value of a QoS level (0, 1 or 2).
pub open spec fn qos_value(q: QoS) -> u8 {
    match q {
        QoS::AtMostOnce => 0,
        QoS::AtLeastOnce => 1,
        QoS::ExactlyOnce => 2,
    }
}

/// The QoS level whose wire value is `v`, if any.
pub open spec fn qos_of_value(v: u8) -> Option<QoS> {
    if v == 0 {
        Some(QoS::AtMostOnce)
    } else if v == 1 {
        Some(QoS::AtLeastOnce)
    } else if v == 2 {
        Some(QoS::ExactlyOnce)
    } else {
        None
    }
}

impl Default for QoS {
    fn default() -> (r: Self)
        ensures
            r == QoS::AtMostOnce,
    {
        QoS::AtMostOnce
    }
}

impl QoS {
    /// QoS from its wire value; `None` for values above 2.
    pub fn from_u8(value: u8) -> (r: Option<Self>)
        ensures
            r == qos_of_value(value),
    {
        match value {
            0 => Some(QoS::AtMostOnce),
            1 => Some(QoS::AtLeastOnce),
            2 => Some(QoS::ExactlyOnce),
            _ => None,
        }
    }

    /// The wire value of this level.
    pub fn value(self) -> (r: u8)
        ensures
            r == qos_value(self),
    {
        match self {
            QoS::AtMostOnce => 0,
            QoS::AtLeastOnce => 1,
            QoS::ExactlyOnce => 2,
        }
    }

    /// The lower of two QoS levels (for subscription downgrade).
    pub fn min(self, other: QoS) -> (r: QoS)
        ensures
            qos_value(r) == if qos_value(self) <= qos_value(other) {
                qos_value(self)
            } else {
                qos_value(other)
            },
    {
        let a = self.value();
        let b = other.value();
        let m = if a <= b {
            a
        } else {
            b
        };
        match m {
            0 => QoS::AtMostOnce,
            1 => QoS::AtLeastOnce,
            _ => QoS::ExactlyOnce,
        }
    }
}

/// Every QoS level is the level of its wire value.
pub proof fn lemma_qos_value_roundtrip(q: QoS)
    ensures
        qos_of_value(qos_value(q)) == Some(q),
        qos_value(q) <= 2,
{
}

/// CONNECT packet flags (byte 8 of the variable header).
#[derive(Debug, Clone, Copy, PartialEq, Eq, Structural)]
pub struct ConnectFlags {
    pub clean_session: bool,
    pub will: bool,
    pub will_qos: QoS,
    pub will_retain: bool,
    pub username: bool,
    pub password: bool,
}

impl Default for ConnectFlags {
    fn default() -> (r: Self)
        ensures
            r == (ConnectFlags {
                clean_session: false,
                will: false,
                will_qos: QoS::AtMostOnce,
                will_retain: false,
                username: false,
                password: false,
            }),
    {
        ConnectFlags {
            clean_session: false,
            will: false,
            will_qos: QoS::AtMostOnce,
            will_retain: false,
            username: false,
            password: false,
        }
    }
}

/// The flags that a connect-flags byte stands for; `None` when the reserved
/// bit 0 is set or the will QoS bits are 3.
pub open spec fn connect_flags_of_byte(b: u8) -> Option<ConnectFlags> {
    if b % 2 == 1 {
        None
    } else {
        match qos_of_value(((b / 8) % 4) as u8) {
            None => None,
            Some(q) => Some(
                ConnectFlags {
                    clean_session: (b / 2) % 2 == 1,
                    will: (b / 4) % 2 == 1,
                    will_qos: q,
                    will_retain: (b / 32) % 2 == 1,
                    username: (b / 64) % 2 == 1,
                    password: b >= 128,
                },
            ),
        }
    }
}

/// The byte that encodes a set of connect flags.
pub open spec fn connect_flags_byte(f: ConnectFlags) -> u8 {
    ((if f.clean_session { 2int } else { 0int }) + (if f.will { 4int } else { 0int }) + 8
        * qos_value(f.will_qos) + (if f.will_retain { 32int } else { 0int }) + (if f.username {
        64int
    } else {
        0int
    }) + (if f.password { 128int } else { 0int })) as u8
}

/// The flag combinations that MQTT 3.1.1 allows: no will QoS or will retain
/// without a will, no password without a username.
pub open spec fn connect_flags_valid(f: ConnectFlags) -> bool {
    &&& (!f.will ==> f.will_qos == QoS::AtMostOnce && !f.will_retain)
    &&& (f.password ==> f.username)
}

impl ConnectFlags {
    /// Parse connect flags from a byte.
    pub fn from_byte(byte: u8) -> (r: Option<Self>)
        ensures
            r == connect_flags_of_byte(byte),
    {
        // Bit 0 is reserved and must be 0
        if byte % 2 != 0 {
            return None;
        }
        let will_qos = match QoS::from_u8((byte / 8) % 4) {
            Some(q) => q,
            None => return None,
        };
        Some(
            ConnectFlags {
                clean_session: (byte / 2) % 2 == 1,
                will: (byte / 4) % 2 == 1,
                will_qos,
                will_retain: (byte / 32) % 2 == 1,
                username: (byte / 64) % 2 == 1,
                password: byte >= 128,
            },
        )
    }

    /// Encode connect flags to a byte.
    pub fn to_byte(&self) -> (r: u8)
        ensures
            r == connect_flags_byte(*self),
    {
        let mut byte = 0u8;
        if self.clean_session {
            byte = byte + 2;
        }
        if self.will {
            byte = byte + 4;
        }
        byte = byte + 8 * self.will_qos.value();
        if self.will_retain {
            byte = byte + 32;
        }
        if self.username {
            byte = byte + 64;
        }
        if self.password {
            byte = byte + 128;
        }
        byte
    }

    /// Validate flag combinations per the MQTT specification.
    pub fn validate(&self) -> (r: bool)
        ensures
            r == connect_flags_valid(*self),
    {
        // If the will flag is 0, will QoS and will retain must be 0
        if !self.will && (self.will_qos != QoS::AtMostOnce || self.will_retain) {
            return false;
        }
        // Password flag requires username flag
        if self.password && !self.username {
            return false;
        }
        true
    }
}

/// Encoding a set of connect flags and parsing the byte gives the same flags.
pub proof fn lemma_connect_flags_roundtrip(f: ConnectFlags)
    ensures
        connect_flags_of_byte(connect_flags_byte(f)) == Some(f),
{
    let b = connect_flags_byte(f);
    assert(b as int == (if f.clean_session { 2int } else { 0int }) + (if f.will { 4int } else {
        0int
    }) + 8 * qos_value(f.will_qos) + (if f.will_retain { 32int } else { 0int }) + (
    if f.username {
        64int
    } else {
        0int
    }) + (if f.password { 128int } else { 0int }));
}

/// Parsing a connect-flags byte and encoding the flags gives the same byte.
pub proof fn lemma_connect_flags_byte_roundtrip(b: u8)
    ensures
        connect_flags_of_byte(b) matches Some(f) ==> connect_flags_byte(f) == b,
{
    assert(b == (b % 2) + 2 * ((b / 2) % 2) + 4 * ((b / 4) % 2) + 8 * ((b / 8) % 4) + 32 * ((b
        / 32) % 2) + 64 * ((b / 64) % 2) + 128 * (b / 128) && b / 128 <= 1) by (bit_vector);
}

/// CONNACK return codes per MQTT 3.1.1 §3.2.2.3.
#[derive(Debug, Clone, Copy, PartialEq, Eq, Structural)]
pub enum ConnectReturnCode {
    Accepted,
    UnacceptableProtocolVersion,
    IdentifierRejected,
    ServerUnavailable,
    BadUsernameOrPassword,
    NotAuthorized,
}

/// The wire value of a CONNACK return code.
pub open spec fn return_code_value(c: ConnectReturnCode) -> u8 {
    match c {
        ConnectReturnCode::Accepted => 0,
        ConnectReturnCode::UnacceptableProtocolVersion => 1,
        ConnectReturnCode::IdentifierRejected => 2,
        ConnectReturnCode::ServerUnavailable => 3,
        ConnectReturnCode::BadUsernameOrPassword => 4,
        ConnectReturnCode::NotAuthorized => 5,
    }
}

/// The CONNACK return code whose wire value is `v`, if any.
pub open spec fn return_code_of_value(v: u8) -> Option<ConnectReturnCode> {
    if v == 0 {
        Some(ConnectReturnCode::Accepted)
    } else if v == 1 {
        Some(ConnectReturnCode::UnacceptableProtocolVersion)
    } else if v == 2 {
        Some(ConnectReturnCode::IdentifierRejected)
    } else if v == 3 {
        Some(ConnectReturnCode::ServerUnavailable)
    } else if v == 4 {
        Some(ConnectReturnCode::BadUsernameOrPassword)
    } else if v == 5 {
        Some(ConnectReturnCode::NotAuthorized)
    } else {
        None
    }
}

/// Every return code is the return code of its wire value.
pub proof fn lemma_return_code_roundtrip(c: ConnectReturnCode)
    ensures
        return_code_of_value(return_code_value(c)) == Some(c),
{
}

impl ConnectReturnCode {
    /// Return code from its wire value; `None` above 5.
    pub fn from_u8(value: u8) -> (r: Option<Self>)
        ensures
            r == return_code_of_value(value),
    {
        match value {
            0x00 => Some(ConnectReturnCode::Accepted),
            0x01 => Some(ConnectReturnCode::UnacceptableProtocolVersion),
            0x02 => Some(ConnectReturnCode::IdentifierRejected),
            0x03 => Some(ConnectReturnCode::ServerUnavailable),
            0x04 => Some(ConnectReturnCode::BadUsernameOrPassword),
            0x05 => Some(ConnectReturnCode::NotAuthorized),
            _ => None,
        }
    }

    /// The wire value of this return code.
    pub fn value(&self) -> (r: u8)
        ensures
            r == return_code_value(*self),
    {
        match self {
            ConnectReturnCode::Accepted => 0x00,
            ConnectReturnCode::UnacceptableProtocolVersion => 0x01,
            ConnectReturnCode::IdentifierRejected => 0x02,
            ConnectReturnCode::ServerUnavailable => 0x03,
            ConnectReturnCode::BadUsernameOrPassword => 0x04,
            ConnectReturnCode::NotAuthorized => 0x05,
        }
    }

    /// True for `Accepted`.
    pub fn is_accepted(&self) -> (r: bool)
        ensures
            r == (*self == ConnectReturnCode::Accepted),
    {
        match self {
            ConnectReturnCode::Accepted => true,
            _ => false,
        }
    }
}

/// SUBACK return codes per MQTT 3.1.1 §3.9.3.
#[derive(Debug, Clone, Copy, PartialEq, Eq, Structural)]
pub enum SubAckCode {
    SuccessQoS0,
    SuccessQoS1,
    SuccessQoS2,
    Failure,
}

/// The wire value of a SUBACK return code.
pub open spec fn suback_code_value(c: SubAckCode) -> u8 {
    match c {
        SubAckCode::SuccessQoS0 => 0x00,
        SubAckCode::SuccessQoS1 => 0x01,
        SubAckCode::SuccessQoS2 => 0x02,
        SubAckCode::Failure => 0x80,
    }
}

/// The SUBACK return code whose wire value is `v`, if any.
pub open spec fn suback_code_of_value(v: u8) -> Option<SubAckCode> {
    if v == 0 {
        Some(SubAckCode::SuccessQoS0)
    } else if v == 1 {
        Some(SubAckCode::SuccessQoS1)
    } else if v == 2 {
        Some(SubAckCode::SuccessQoS2)
    } else if v == 0x80 {
        Some(SubAckCode::Failure)
    } else {
        None
    }
}

/// The success code that grants a QoS level.
pub open spec fn suback_code_for(q: QoS) -> SubAckCode {
    match q {
        QoS::AtMostOnce => SubAckCode::SuccessQoS0,
        QoS::AtLeastOnce => SubAckCode::SuccessQoS1,
        QoS::ExactlyOnce => SubAckCode::SuccessQoS2,
    }
}

impl SubAckCode {
    /// Return code from its wire value.
    pub fn from_u8(value: u8) -> (r: Option<Self>)
        ensures
            r == suback_code_of_value(value),
    {
        match value {
            0x00 => Some(SubAckCode::SuccessQoS0),
            0x01 => Some(SubAckCode::SuccessQoS1),
            0x02 => Some(SubAckCode::SuccessQoS2),
            0x80 => Some(SubAckCode::Failure),
            _ => None,
        }
    }

    /// The wire value of this return code.
    pub fn to_u8(&self) -> (r: u8)
        ensures
            r == suback_code_value(*self),
    {
        match self {
            SubAckCode::SuccessQoS0 => 0x00,
            SubAckCode::SuccessQoS1 => 0x01,
            SubAckCode::SuccessQoS2 => 0x02,
            SubAckCode::Failure => 0x80,
        }
    }

    /// The success code that grants `qos`.
    pub fn from_qos(qos: QoS) -> (r: Self)
        ensures
            r == suback_code_for(qos),
    {
        match qos {
            QoS::AtMostOnce => SubAckCode::SuccessQoS0,
            QoS::AtLeastOnce => SubAckCode::SuccessQoS1,
            QoS::ExactlyOnce => SubAckCode::SuccessQoS2,
        }
    }
}

/// Every SUBACK code is the code of its wire value.
pub proof fn lemma_suback_code_roundtrip(c: SubAckCode)
    ensures
        suback_code_of_value(suback_code_value(c)) == Some(c),
{
}

/// Packet identifier (16-bit) used for QoS 1/2 message tracking.
pub type PacketId = u16;

/// Last Will and Testament configuration.
#[derive(Debug, Clone, PartialEq, Eq)]
pub struct Will {
    pub topic: String,
    pub message: Bytes,
    pub qos: QoS,
    pub retain: bool,
}

/// What a will holds, as plain values.
pub struct WillView {
    pub topic: Seq<char>,
    pub message: Seq<u8>,
    pub qos: QoS,
    pub retain: bool,
}

impl View for Will {
    type V = WillView;

    open spec fn view(&self) -> WillView {
        WillView {
            topic: self.topic@,
            message: bytes_seq(self.message),
            qos: self.qos,
            retain: self.retain,
        }
    }
}

/// Topic subscription with requested QoS.
#[derive(Debug, Clone, PartialEq, Eq)]
pub struct Subscription {
    pub topic_filter: String,
    pub qos: QoS,
}

/// What a subscription holds, as plain values.
pub struct SubscriptionView {
    pub topic_filter: Seq<char>,
    pub qos: QoS,
}

impl View for Subscription {
    type V = SubscriptionView;

    open spec fn view(&self) -> SubscriptionView {
        SubscriptionView { topic_filter: self.topic_filter@, qos: self.qos }
    }
}

/// Fixed header first byte breakdown.
#[derive(Debug, Clone, Copy, Structural, PartialEq, Eq)]
pub struct FixedHeader {
    pub packet_type: u8,
    pub dup: bool,
    pub qos: QoS,
    pub retain: bool,
}

/// The fixed header that a first byte stands for; `None` when its flags are
/// not the ones MQTT 3.1.1 §2.2.2 prescribes for the packet type.
pub open spec fn fixed_header_of_byte(byte: u8) -> Option<FixedHeader> {
    let packet_type = (byte / 16) as u8;
    let flags = byte % 16;
    if packet_type == 3 {
        match qos_of_value(((flags / 2) % 4) as u8) {
            None => None,
            Some(q) => Some(
                FixedHeader { packet_type, dup: flags >= 8, qos: q, retain: flags % 2 == 1 },
            ),
        }
    } else if packet_type == 6 || packet_type == 8 || packet_type == 10 {
        if flags != 2 {
            None
        } else {
            Some(
                FixedHeader {
                    packet_type,
                    dup: false,
                    qos: QoS::AtMostOnce,
                    retain: false,
                },
            )
        }
    } else if flags != 0 {
        None
    } else {
        Some(FixedHeader { packet_type, dup: false, qos: QoS::AtMostOnce, retain: false })
    }
}

/// The flags of a PUBLISH first byte (MQTT 3.1.1 §3.3.1): bit 0 is RETAIN,
/// bits 1 and 2 the QoS (3 is refused), bit 3 DUP.
pub proof fn lemma_publish_flags(b: u8)
    requires
        b / 16 == 3,
    ensures
        fixed_header_of_byte(b) is None <==> (b / 2) % 4 == 3,
        fixed_header_of_byte(b) matches Some(h) ==> {
            &&& h.packet_type == 3
            &&& h.retain == (b % 2 == 1)
            &&& h.dup == ((b / 8) % 2 == 1)
            &&& qos_value(h.qos) == (b / 2) % 4
        },
{
    assert((b % 16) / 2 % 4 == (b / 2) % 4) by (nonlinear_arith)
        requires
            b / 16 == 3,
    ;
    assert(((b % 16) >= 8) == ((b / 8) % 2 == 1)) by (nonlinear_arith)
        requires
            b / 16 == 3,
    ;
    assert((b % 16) % 2 == b % 2) by (nonlinear_arith);
    lemma_qos_values();
}

/// The first byte of a PUBLISH: `0x30`, DUP in bit 3, the QoS in bits 1 and
/// 2, RETAIN in bit 0.
pub proof fn lemma_publish_header_byte(h: FixedHeader)
    requires
        h.packet_type == 3,
    ensures
        fixed_header_byte(h) == 0x30 + (if h.dup { 8int } else { 0int }) + 2 * qos_value(h.qos) + (if h.retain {
            1int
        } else {
            0int
        }),
        fixed_header_byte(h) / 16 == 3,
        fixed_header_byte(h) % 2 == (if h.retain { 1int } else { 0int }),
        (fixed_header_byte(h) / 8) % 2 == (if h.dup { 1int } else { 0int }),
        (fixed_header_byte(h) / 2) % 4 == qos_value(h.qos),
{
    lemma_qos_values();
}

/// The QoS wire values of MQTT 3.1.1: 0, 1 and 2.
pub proof fn lemma_qos_values()
    ensures
        qos_value(QoS::AtMostOnce) == 0,
        qos_value(QoS::AtLeastOnce) == 1,
        qos_value(QoS::ExactlyOnce) == 2,
        qos_of_value(0) == Some(QoS::AtMostOnce),
        qos_of_value(1) == Some(QoS::AtLeastOnce),
        qos_of_value(2) == Some(QoS::ExactlyOnce),
        forall|v: u8| v > 2 ==> qos_of_value(v) is None,
{
}

/// The CONNACK return codes of MQTT 3.1.1 §3.2.2.3: accepted 0,
/// unacceptable protocol version 1, identifier rejected 2, server
/// unavailable 3, bad user name or password 4, not authorized 5; no other
/// value is a return code.
pub proof fn lemma_return_code_values()
    ensures
        return_code_value(ConnectReturnCode::Accepted) == 0,
        return_code_value(ConnectReturnCode::UnacceptableProtocolVersion) == 1,
        return_code_value(ConnectReturnCode::IdentifierRejected) == 2,
        return_code_value(ConnectReturnCode::ServerUnavailable) == 3,
        return_code_value(ConnectReturnCode::BadUsernameOrPassword) == 4,
        return_code_value(ConnectReturnCode::NotAuthorized) == 5,
        return_code_of_value(0) == Some(ConnectReturnCode::Accepted),
        return_code_of_value(1) == Some(ConnectReturnCode::UnacceptableProtocolVersion),
        return_code_of_value(2) == Some(ConnectReturnCode::IdentifierRejected),
        return_code_of_value(3) == Some(ConnectReturnCode::ServerUnavailable),
        return_code_of_value(4) == Some(ConnectReturnCode::BadUsernameOrPassword),
        return_code_of_value(5) == Some(ConnectReturnCode::NotAuthorized),
        forall|v: u8| v > 5 ==> return_code_of_value(v) is None,
{
}

/// The SUBACK return codes of MQTT 3.1.1 §3.9.3: success at QoS 0, 1 and 2
/// are 0, 1 and 2, failure is 0x80; the success code for a QoS has the QoS's
/// value.
pub proof fn lemma_suback_code_values()
    ensures
        suback_code_value(SubAckCode::SuccessQoS0) == 0,
        suback_code_value(SubAckCode::SuccessQoS1) == 1,
        suback_code_value(SubAckCode::SuccessQoS2) == 2,
        suback_code_value(SubAckCode::Failure) == 0x80,
        forall|q: QoS| suback_code_value(#[trigger] suback_code_for(q)) == qos_value(q),
{
}

/// The first byte that encodes a fixed header (the type is taken modulo 16).
pub open spec fn fixed_header_byte(h: FixedHeader) -> u8 {
    ((h.packet_type % 16) * 16 + (if h.dup { 8int } else { 0int }) + 2 * qos_value(h.qos) + (
    if h.retain {
        1int
    } else {
        0int
    })) as u8
}

/// Parsing a fixed header byte and encoding the header gives the byte back,
/// for every packet type but PUBREL, SUBSCRIBE and UNSUBSCRIBE (whose
/// required flags 0010 are not kept in the header).
pub proof fn lemma_fixed_header_byte_roundtrip(b: u8)
    requires
        b / 16 != 6 && b / 16 != 8 && b / 16 != 10,
    ensures
        fixed_header_of_byte(b) matches Some(h) ==> fixed_header_byte(h) == b,
{
    assert(b == (b / 16) * 16 + b % 16);
}

impl FixedHeader {
    /// Parse from the first byte of a packet.
    pub fn from_byte(byte: u8) -> (r: Option<Self>)
        ensures
            r == fixed_header_of_byte(byte),
    {
        let packet_type = byte / 16;
        let flags = byte % 16;

        // Validate flags based on packet type per MQTT 3.1.1 §2.2.2
        if packet_type == 3 {
            // PUBLISH: flags are variable
            let qos = match QoS::from_u8((flags / 2) % 4) {
                Some(q) => q,
                None => return None,
            };
            Some(FixedHeader { packet_type, dup: flags >= 8, qos, retain: flags % 2 == 1 })
        } else if packet_type == 6 || packet_type == 8 || packet_type == 10 {
            // PUBREL, SUBSCRIBE, UNSUBSCRIBE: flags must be 0010
            if flags != 2 {
                return None;
            }
            Some(FixedHeader { packet_type, dup: false, qos: QoS::AtMostOnce, retain: false })
        } else {
            // All others: flags must be 0000
            if flags != 0 {
                return None;
            }
            Some(FixedHeader { packet_type, dup: false, qos: QoS::AtMostOnce, retain: false })
        }
    }

    /// Encode to the first byte.
    pub fn to_byte(&self) -> (r: u8)
        ensures
            r == fixed_header_byte(*self),
    {
        let mut byte: u8 = (self.packet_type % 16) * 16;
        if self.dup {
            byte = byte + 8;
        }
        byte = byte + 2 * self.qos.value();
        if self.retain {
            byte = byte + 1;
        }
        byte
    }
}

/// Protocol name of MQTT 3.1.1.
pub const PROTOCOL_NAME: &'static str = "MQTT";

/// Protocol level of MQTT 3.1.1.
pub const PROTOCOL_LEVEL_3_1_1: u8 = 0x04;

/// Maximum remaining length (256 MB).
pub const MAX_REMAINING_LENGTH: usize = 268_435_455;

/// Maximum packet size accepted by default (1 MB).
pub const DEFAULT_MAX_PACKET_SIZE: usize = 1_048_576;

} // verus!
