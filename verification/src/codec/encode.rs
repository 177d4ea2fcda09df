//! MQTT packet encoding (`Packet` to bytes).

use vstd::prelude::*;

use vstd::utf8::encode_utf8;

use bytes::{Bytes, BytesMut};

use crate::buf::{
    bytes_as_slice, bytes_mut_put_slice, bytes_mut_put_u16, bytes_mut_put_u8, bytes_mut_seq,
    bytes_mut_with_capacity, bytes_seq,
};
use crate::codec::error::{EncodeError, EncodeFailure};
use crate::codec::packet::{
    opt_bytes_view, opt_string_view, opt_will_view, ConnAck, PubAck, PubComp, PubRec, PubRel, UnsubAck, Connect, ConnectView, Packet, PacketView, Publish, PublishView, SubAck, SubAckView,
    Subscribe, SubscribeView, Unsubscribe, UnsubscribeView,
};
use crate::codec::types::{
    connect_flags_byte, fixed_header_byte, qos_value, return_code_value, suback_code_value,
    ConnectReturnCode, FixedHeader, QoS, SubAckCode, Subscription, SubscriptionView, Will, WillView,
    MAX_REMAINING_LENGTH,
};
use crate::codec::varint::{encode_variable_int, varint_bytes, varint_len, MAX_VARINT_VALUE};

verus! {

/// Encode result: the bytes of the packet, or an error.
pub type EncodeResult = Result<BytesMut, EncodeError>;

/// `n`, or `usize::MAX` when `n` does not fit in a `usize`.
pub open spec fn capped(n: nat) -> nat {
    if n <= usize::MAX {
        n
    } else {
        usize::MAX as nat
    }
}

/// The two bytes of `v`, most significant first.
pub open spec fn be16(v: nat) -> Seq<u8> {
    seq![((v / 256) % 256) as u8, (v % 256) as u8]
}

/// A length-prefixed UTF-8 string: the byte length (modulo 65536, as the
/// 16-bit field holds it) and the bytes.
pub open spec fn string_enc(s: Seq<char>) -> Seq<u8> {
    be16(encode_utf8(s).len() % 65536) + encode_utf8(s)
}

/// Length-prefixed binary data.
pub open spec fn binary_enc(d: Seq<u8>) -> Seq<u8> {
    be16(d.len() % 65536) + d
}

/// A packet with first byte `header` and body `body`: `PayloadTooLarge` when
/// the body is longer than 268,435,455 bytes.
pub open spec fn framed(header: u8, body: Seq<u8>) -> Result<Seq<u8>, EncodeFailure> {
    if body.len() > MAX_REMAINING_LENGTH {
        Err(EncodeFailure::PayloadTooLarge(capped(body.len())))
    } else {
        Ok(seq![header] + varint_bytes(body.len()) + body)
    }
}

/// The variable header of a CONNECT packet and the client identifier.
pub open spec fn connect_fixed(c: ConnectView) -> Seq<u8> {
    string_enc(c.protocol_name) + seq![c.protocol_level, connect_flags_byte(c.flags)] + be16(
        c.keep_alive as nat,
    ) + string_enc(c.client_id)
}

/// The will topic and message, when there is a will.
pub open spec fn will_enc(w: Option<WillView>) -> Seq<u8> {
    match w {
        Some(w) => string_enc(w.topic) + binary_enc(w.message),
        None => seq![],
    }
}

/// An optional length-prefixed string.
pub open spec fn opt_string_enc(s: Option<Seq<char>>) -> Seq<u8> {
    match s {
        Some(s) => string_enc(s),
        None => seq![],
    }
}

/// Optional length-prefixed binary data.
pub open spec fn opt_binary_enc(d: Option<Seq<u8>>) -> Seq<u8> {
    match d {
        Some(d) => binary_enc(d),
        None => seq![],
    }
}

/// The body of a CONNECT packet.
pub open spec fn connect_body(c: ConnectView) -> Seq<u8> {
    connect_fixed(c) + will_enc(c.will) + opt_string_enc(c.username) + opt_binary_enc(c.password)
}

/// The length of a PUBLISH body (the packet identifier counted for QoS 1/2).
pub open spec fn publish_len(p: PublishView) -> nat {
    string_enc(p.topic).len() + (if p.qos != QoS::AtMostOnce {
        2nat
    } else {
        0nat
    }) + p.payload.len()
}

/// The body of a PUBLISH packet (with its packet identifier for QoS 1/2).
pub open spec fn publish_body(p: PublishView) -> Seq<u8> {
    string_enc(p.topic) + (if p.qos != QoS::AtMostOnce {
        be16(p.packet_id.unwrap() as nat)
    } else {
        seq![]
    }) + p.payload
}

/// The encoded subscription list.
pub open spec fn subscriptions_enc(s: Seq<SubscriptionView>) -> Seq<u8>
    decreases s.len(),
{
    if s.len() == 0 {
        seq![]
    } else {
        subscription_enc(s[0]) + subscriptions_enc(s.drop_first())
    }
}

/// The encoded return codes.
pub open spec fn return_codes_enc(c: Seq<SubAckCode>) -> Seq<u8> {
    c.map_values(|x: SubAckCode| suback_code_value(x))
}

/// The encoded topic filter list.
pub open spec fn filters_enc(f: Seq<Seq<char>>) -> Seq<u8>
    decreases f.len(),
{
    if f.len() == 0 {
        seq![]
    } else {
        string_enc(f[0]) + filters_enc(f.drop_first())
    }
}

/// A packet that carries only a packet identifier.
pub open spec fn id_packet(header: u8, id: u16) -> Seq<u8> {
    seq![header, 2u8] + be16(id as nat)
}

/// Encoding a packet: its bytes, or the error that MQTT 3.1.1's rules (and
/// the 268,435,455-byte limit on the remaining length) give.
pub open spec fn spec_encode_packet(p: PacketView) -> Result<Seq<u8>, EncodeFailure> {
    match p {
        PacketView::Connect(c) => framed(0x10, connect_body(c)),
        PacketView::ConnAck(c) => Ok(
            seq![0x20u8, 0x02u8, if c.session_present { 1u8 } else { 0u8 }, return_code_value(c.return_code)],
        ),
        PacketView::Publish(p) => if publish_len(p) > MAX_REMAINING_LENGTH {
            Err(EncodeFailure::PayloadTooLarge(capped(publish_len(p))))
        } else if p.qos != QoS::AtMostOnce && p.packet_id.is_none() {
            Err(EncodeFailure::MissingField("packet_id for QoS > 0"@))
        } else {
            framed(
                fixed_header_byte(
                    FixedHeader { packet_type: 3, dup: p.dup, qos: p.qos, retain: p.retain },
                ),
                publish_body(p),
            )
        },
        PacketView::PubAck(a) => Ok(id_packet(0x40, a.packet_id)),
        PacketView::PubRec(a) => Ok(id_packet(0x50, a.packet_id)),
        PacketView::PubRel(a) => Ok(id_packet(0x62, a.packet_id)),
        PacketView::PubComp(a) => Ok(id_packet(0x70, a.packet_id)),
        PacketView::Subscribe(s) => if s.subscriptions.len() == 0 {
            Err(EncodeFailure::InvalidState("SUBSCRIBE must have at least one subscription"@))
        } else {
            framed(0x82, be16(s.packet_id as nat) + subscriptions_enc(s.subscriptions))
        },
        PacketView::SubAck(s) => if s.return_codes.len() == 0 {
            Err(EncodeFailure::InvalidState("SUBACK must have at least one return code"@))
        } else {
            framed(0x90, be16(s.packet_id as nat) + return_codes_enc(s.return_codes))
        },
        PacketView::Unsubscribe(u) => if u.topic_filters.len() == 0 {
            Err(
                EncodeFailure::InvalidState("UNSUBSCRIBE must have at least one topic filter"@),
            )
        } else {
            framed(0xA2, be16(u.packet_id as nat) + filters_enc(u.topic_filters))
        },
        PacketView::UnsubAck(a) => Ok(id_packet(0xB0, a.packet_id)),
        PacketView::PingReq => Ok(seq![0xC0u8, 0x00u8]),
        PacketView::PingResp => Ok(seq![0xD0u8, 0x00u8]),
        PacketView::Disconnect => Ok(seq![0xE0u8, 0x00u8]),
    }
}

/// `r` is the encoding result that `s` describes.
pub open spec fn encoded_as(r: EncodeResult, s: Result<Seq<u8>, EncodeFailure>) -> bool {
    match s {
        Ok(b) => r matches Ok(x) && bytes_mut_seq(x) == b,
        Err(e) => r matches Err(x) && x@ == e,
    }
}

// ----------------------------------------------------------------------------
// Writing fields
// ----------------------------------------------------------------------------

/// Append a big-endian u16.
fn put_u16(buf: &mut BytesMut, v: u16)
    requires
        bytes_mut_seq(*old(buf)).len() + 2 <= isize::MAX,
    ensures
        bytes_mut_seq(*final(buf)) == bytes_mut_seq(*old(buf)) + be16(v as nat),
{
    bytes_mut_put_u16(buf, v);
}

/// Append a length-prefixed UTF-8 string.
fn encode_string(buf: &mut BytesMut, s: &str)
    requires
        bytes_mut_seq(*old(buf)).len() + 2 + encode_utf8(s@).len() <= isize::MAX,
    ensures
        bytes_mut_seq(*final(buf)) == bytes_mut_seq(*old(buf)) + string_enc(s@),
{
    let b = s.as_bytes();
    bytes_mut_put_u16(buf, (b.len() % 65536) as u16);
    bytes_mut_put_slice(buf, b);
    assert(bytes_mut_seq(*buf) =~= bytes_mut_seq(*old(buf)) + string_enc(s@));
}

/// Append length-prefixed binary data.
fn encode_bytes(buf: &mut BytesMut, data: &[u8])
    requires
        bytes_mut_seq(*old(buf)).len() + 2 + data@.len() <= isize::MAX,
    ensures
        bytes_mut_seq(*final(buf)) == bytes_mut_seq(*old(buf)) + binary_enc(data@),
{
    bytes_mut_put_u16(buf, (data.len() % 65536) as u16);
    bytes_mut_put_slice(buf, data);
    assert(bytes_mut_seq(*buf) =~= bytes_mut_seq(*old(buf)) + binary_enc(data@));
}

/// Encoded string size (2 + byte length), capped at `usize::MAX`.
fn string_size(s: &str) -> (r: usize)
    ensures
        r == capped(string_enc(s@).len()),
{
    2usize.saturating_add(s.as_bytes().len())
}

/// Encoded binary size (2 + length), capped at `usize::MAX`.
fn bytes_size(data: &[u8]) -> (r: usize)
    ensures
        r == capped(binary_enc(data@).len()),
{
    2usize.saturating_add(data.len())
}

/// A new buffer with room for a packet with the given remaining length.
fn new_packet_buffer(remaining_len: usize) -> (b: BytesMut)
    ensures
        bytes_mut_seq(b) == Seq::<u8>::empty(),
{
    let total = remaining_len.saturating_add(1).saturating_add(
        varint_len((remaining_len % 268435456) as u32),
    );
    // No packet that can be encoded needs more room than the largest one
    let capacity = if total < 268435460 {
        total
    } else {
        268435460
    };
    bytes_mut_with_capacity(capacity)
}

/// Write the fixed header byte and the remaining length.
fn write_header(buf: &mut BytesMut, header_byte: u8, remaining_len: usize) -> (r: Result<
    (),
    EncodeError,
>)
    requires
        bytes_mut_seq(*old(buf)).len() == 0,
    ensures
        remaining_len > MAX_REMAINING_LENGTH ==> (r matches Err(e) && e@
            == EncodeFailure::PayloadTooLarge(remaining_len as nat)),
        remaining_len <= MAX_REMAINING_LENGTH ==> r is Ok && bytes_mut_seq(*final(buf)) == seq![
            header_byte,
        ] + varint_bytes(remaining_len as nat),
        bytes_mut_seq(*final(buf)).len() <= 5,
{
    if remaining_len > MAX_REMAINING_LENGTH {
        return Err(EncodeError::PayloadTooLarge { size: remaining_len });
    }
    bytes_mut_put_u8(buf, header_byte);
    let v = encode_variable_int(remaining_len as u32);
    proof {
        crate::codec::varint::lemma_varint_roundtrip(remaining_len as nat, seq![]);
    }
    bytes_mut_put_slice(buf, v.as_slice());
    Ok(())
}

proof fn lemma_capped_add(a: nat, b: nat)
    ensures
        (if capped(a) + capped(b) > usize::MAX { usize::MAX as nat } else { capped(a) + capped(b) })
            == capped(a + b),
{
}

/// Lengths of the length-prefixed fields.
proof fn lemma_field_lens(s: Seq<char>, d: Seq<u8>)
    ensures
        string_enc(s).len() == 2 + encode_utf8(s).len(),
        binary_enc(d).len() == 2 + d.len(),
{
}

/// The remaining length of a CONNECT packet, capped at `usize::MAX`.
fn connect_remaining_len(packet: &Connect) -> (r: usize)
    ensures
        r == capped(connect_body(packet@).len()),
{
    let ghost c = packet@;
    let ghost fixed_part = connect_fixed(c);
    let ghost will_part = will_enc(c.will);
    let ghost user_part = opt_string_enc(c.username);

    // Variable header: protocol name, level, flags, keep alive
    let mut remaining_len = string_size(packet.protocol_name.as_str());
    proof { lemma_capped_add(string_enc(c.protocol_name).len(), 4); }
    remaining_len = remaining_len.saturating_add(4);
    // Payload
    proof { lemma_capped_add((string_enc(c.protocol_name).len() + 4) as nat, string_enc(c.client_id).len()); }
    remaining_len = remaining_len.saturating_add(string_size(packet.client_id.as_str()));
    assert(remaining_len == capped(fixed_part.len()));
    match &packet.will {
        Some(will) => {
            proof { lemma_capped_add(fixed_part.len(), string_enc(will.topic@).len()); }
            remaining_len = remaining_len.saturating_add(string_size(will.topic.as_str()));
            proof {
                lemma_capped_add((fixed_part.len() + string_enc(will.topic@).len()) as nat, binary_enc(bytes_seq(will.message)).len());
            }
            remaining_len = remaining_len.saturating_add(bytes_size(bytes_as_slice(&will.message)));
        },
        None => {},
    }
    assert(remaining_len == capped((fixed_part + will_part).len()));
    match &packet.username {
        Some(username) => {
            proof { lemma_capped_add((fixed_part + will_part).len(), string_enc(username@).len()); }
            remaining_len = remaining_len.saturating_add(string_size(username.as_str()));
        },
        None => {},
    }
    assert(remaining_len == capped((fixed_part + will_part + user_part).len()));
    match &packet.password {
        Some(password) => {
            proof { lemma_capped_add((fixed_part + will_part + user_part).len(), binary_enc(bytes_seq(*password)).len()); }
            remaining_len = remaining_len.saturating_add(bytes_size(bytes_as_slice(password)));
        },
        None => {},
    }
    remaining_len
}

/// Append the variable header of a CONNECT packet and the client identifier.
fn write_connect_fixed(buf: &mut BytesMut, packet: &Connect)
    requires
        bytes_mut_seq(*old(buf)).len() + connect_fixed(packet@).len() <= isize::MAX,
    ensures
        bytes_mut_seq(*final(buf)) == bytes_mut_seq(*old(buf)) + connect_fixed(packet@),
{
    let ghost c = packet@;
    let ghost head = bytes_mut_seq(*buf);
    proof {
        lemma_field_lens(c.protocol_name, seq![]);
        lemma_field_lens(c.client_id, seq![]);
    }
    // Variable header
    encode_string(buf, packet.protocol_name.as_str());
    bytes_mut_put_u8(buf, packet.protocol_level);
    bytes_mut_put_u8(buf, packet.flags.to_byte());
    put_u16(buf, packet.keep_alive);
    // Payload
    encode_string(buf, packet.client_id.as_str());
    assert(bytes_mut_seq(*buf) =~= head + connect_fixed(c));
}

/// Append the will topic and message, if any.
fn write_will(buf: &mut BytesMut, will: &Option<Will>)
    requires
        bytes_mut_seq(*old(buf)).len() + will_enc(opt_will_view(*will)).len() <= isize::MAX,
    ensures
        bytes_mut_seq(*final(buf)) == bytes_mut_seq(*old(buf)) + will_enc(opt_will_view(*will)),
{
    match will {
        Some(will) => {
            let ghost head = bytes_mut_seq(*buf);
            proof {
                lemma_field_lens(will.topic@, bytes_seq(will.message));
            }
            encode_string(buf, will.topic.as_str());
            encode_bytes(buf, bytes_as_slice(&will.message));
            assert(bytes_mut_seq(*buf) =~= head + will_enc(opt_will_view(Some(*will))));
        },
        None => {
            assert(bytes_mut_seq(*buf) =~= bytes_mut_seq(*old(buf)) + will_enc(None));
        },
    }
}

/// Append the user name and password, if any.
fn write_credentials(buf: &mut BytesMut, username: &Option<String>, password: &Option<Bytes>)
    requires
        bytes_mut_seq(*old(buf)).len() + opt_string_enc(opt_string_view(*username)).len()
            + opt_binary_enc(opt_bytes_view(*password)).len() <= isize::MAX,
    ensures
        bytes_mut_seq(*final(buf)) == bytes_mut_seq(*old(buf)) + opt_string_enc(
            opt_string_view(*username),
        ) + opt_binary_enc(opt_bytes_view(*password)),
{
    let ghost head = bytes_mut_seq(*buf);
    match username {
        Some(username) => {
            proof {
                lemma_field_lens(username@, seq![]);
            }
            encode_string(buf, username.as_str());
        },
        None => {},
    }
    assert(bytes_mut_seq(*buf) =~= head + opt_string_enc(opt_string_view(*username)));
    let ghost mid = bytes_mut_seq(*buf);
    match password {
        Some(password) => {
            proof {
                lemma_field_lens(seq![], bytes_seq(*password));
            }
            encode_bytes(buf, bytes_as_slice(password));
        },
        None => {},
    }
    assert(bytes_mut_seq(*buf) =~= mid + opt_binary_enc(opt_bytes_view(*password)));
}

/// Encode a CONNECT packet.
fn encode_connect(packet: &Connect) -> (r: EncodeResult)
    ensures
        encoded_as(r, framed(0x10, connect_body(packet@))),
{
    let ghost c = packet@;
    let remaining_len = connect_remaining_len(packet);
    let mut buf = new_packet_buffer(remaining_len);

    // Fixed header: CONNECT = 0x10
    write_header(&mut buf, 0x10, remaining_len)?;
    let ghost head = bytes_mut_seq(buf);
    write_connect_fixed(&mut buf, packet);
    write_will(&mut buf, &packet.will);
    write_credentials(&mut buf, &packet.username, &packet.password);
    assert(bytes_mut_seq(buf) =~= head + connect_body(c));
    Ok(buf)
}

/// Encode a CONNACK packet.
fn encode_connack(packet: &ConnAck) -> (r: EncodeResult)
    ensures
        encoded_as(r, spec_encode_packet(PacketView::ConnAck(*packet))),
{
    let mut buf = bytes_mut_with_capacity(4);
    // Fixed header: CONNACK = 0x20, remaining length = 2
    bytes_mut_put_u8(&mut buf, 0x20);
    bytes_mut_put_u8(&mut buf, 0x02);
    // Variable header
    bytes_mut_put_u8(&mut buf, if packet.session_present { 0x01 } else { 0x00 });
    bytes_mut_put_u8(&mut buf, packet.return_code.value());
    assert(bytes_mut_seq(buf) =~= seq![0x20u8, 0x02u8, if packet.session_present { 1u8 } else { 0u8 }, return_code_value(packet.return_code)]);
    Ok(buf)
}

/// The remaining length of a PUBLISH packet, capped at `usize::MAX`.
fn publish_remaining_len(packet: &Publish) -> (r: usize)
    ensures
        r == capped(publish_len(packet@)),
{
    let ghost p = packet@;
    let mut remaining_len = string_size(packet.topic.as_str());
    if packet.qos != QoS::AtMostOnce {
        proof { lemma_capped_add(string_enc(p.topic).len(), 2); }
        remaining_len = remaining_len.saturating_add(2);
    }
    proof {
        let idl: nat = if p.qos != QoS::AtMostOnce { 2nat } else { 0nat };
        lemma_capped_add(string_enc(p.topic).len() + idl, p.payload.len());
    }
    remaining_len.saturating_add(bytes_as_slice(&packet.payload).len())
}

/// Encode a PUBLISH packet.
fn encode_publish(packet: &Publish) -> (r: EncodeResult)
    ensures
        encoded_as(r, spec_encode_packet(PacketView::Publish(packet@))),
{
    let ghost p = packet@;
    let remaining_len = publish_remaining_len(packet);
    let mut buf = new_packet_buffer(remaining_len);

    // Fixed header
    let header = FixedHeader {
        packet_type: 3,
        dup: packet.dup,
        qos: packet.qos,
        retain: packet.retain,
    };
    write_header(&mut buf, header.to_byte(), remaining_len)?;
    let ghost head = bytes_mut_seq(buf);
    proof {
        lemma_field_lens(p.topic, seq![]);
    }

    // Variable header
    encode_string(&mut buf, packet.topic.as_str());
    if packet.qos != QoS::AtMostOnce {
        match packet.packet_id {
            Some(packet_id) => put_u16(&mut buf, packet_id),
            None => return Err(EncodeError::MissingField("packet_id for QoS > 0")),
        }
    }

    // Payload
    bytes_mut_put_slice(&mut buf, bytes_as_slice(&packet.payload));
    assert(bytes_mut_seq(buf) =~= head + publish_body(p));
    Ok(buf)
}

/// Encode a packet that carries only a packet identifier.
fn encode_id_packet(header: u8, packet_id: u16) -> (r: EncodeResult)
    ensures
        r matches Ok(b) && bytes_mut_seq(b) == id_packet(header, packet_id),
{
    let mut buf = bytes_mut_with_capacity(4);
    bytes_mut_put_u8(&mut buf, header);
    bytes_mut_put_u8(&mut buf, 0x02);
    put_u16(&mut buf, packet_id);
    assert(bytes_mut_seq(buf) =~= id_packet(header, packet_id));
    Ok(buf)
}

/// Encode a PUBACK packet.
fn encode_puback(packet: &PubAck) -> (r: EncodeResult)
    ensures
        encoded_as(r, spec_encode_packet(PacketView::PubAck(*packet))),
{
    // Fixed header: PUBACK = 0x40, remaining length = 2
    encode_id_packet(0x40, packet.packet_id)
}

/// Encode a PUBREC packet.
fn encode_pubrec(packet: &PubRec) -> (r: EncodeResult)
    ensures
        encoded_as(r, spec_encode_packet(PacketView::PubRec(*packet))),
{
    // Fixed header: PUBREC = 0x50, remaining length = 2
    encode_id_packet(0x50, packet.packet_id)
}

/// Encode a PUBREL packet.
fn encode_pubrel(packet: &PubRel) -> (r: EncodeResult)
    ensures
        encoded_as(r, spec_encode_packet(PacketView::PubRel(*packet))),
{
    // Fixed header: PUBREL = 0x62 (flags 0010), remaining length = 2
    encode_id_packet(0x62, packet.packet_id)
}

/// Encode a PUBCOMP packet.
fn encode_pubcomp(packet: &PubComp) -> (r: EncodeResult)
    ensures
        encoded_as(r, spec_encode_packet(PacketView::PubComp(*packet))),
{
    // Fixed header: PUBCOMP = 0x70, remaining length = 2
    encode_id_packet(0x70, packet.packet_id)
}

/// Encode an UNSUBACK packet.
fn encode_unsuback(packet: &UnsubAck) -> (r: EncodeResult)
    ensures
        encoded_as(r, spec_encode_packet(PacketView::UnsubAck(*packet))),
{
    // Fixed header: UNSUBACK = 0xB0, remaining length = 2
    encode_id_packet(0xB0, packet.packet_id)
}

/// Encode a packet that has no variable header or payload.
fn encode_empty_packet(header: u8) -> (r: EncodeResult)
    ensures
        r matches Ok(b) && bytes_mut_seq(b) == seq![header, 0x00u8],
{
    let mut buf = bytes_mut_with_capacity(2);
    bytes_mut_put_u8(&mut buf, header);
    bytes_mut_put_u8(&mut buf, 0x00);
    assert(bytes_mut_seq(buf) =~= seq![header, 0x00u8]);
    Ok(buf)
}

/// The encoding of one subscription: the filter and the requested QoS.
pub open spec fn subscription_enc(s: SubscriptionView) -> Seq<u8> {
    string_enc(s.topic_filter) + seq![qos_value(s.qos)]
}

/// Encoding a concatenation of subscription lists concatenates the encodings.
proof fn lemma_subscriptions_enc_append(a: Seq<SubscriptionView>, b: Seq<SubscriptionView>)
    ensures
        subscriptions_enc(a + b) == subscriptions_enc(a) + subscriptions_enc(b),
    decreases a.len(),
{
    if a.len() == 0 {
        assert(a + b =~= b);
    } else {
        assert((a + b).drop_first() =~= a.drop_first() + b);
        lemma_subscriptions_enc_append(a.drop_first(), b);
        assert(subscriptions_enc(a + b) =~= subscriptions_enc(a) + subscriptions_enc(b));
    }
}

/// A list of one subscription encodes as that subscription.
proof fn lemma_subscriptions_enc_one(x: SubscriptionView)
    ensures
        subscriptions_enc(seq![x]) == subscription_enc(x),
{
    assert(seq![x].drop_first() =~= Seq::<SubscriptionView>::empty());
    assert(subscriptions_enc(Seq::<SubscriptionView>::empty()) == Seq::<u8>::empty());
    assert(subscriptions_enc(seq![x]) =~= subscription_enc(x));
}

/// The remaining length of a SUBSCRIBE packet, capped at `usize::MAX`.
fn subscribe_remaining_len(packet: &Subscribe) -> (r: usize)
    ensures
        r == capped(2 + subscriptions_enc(packet@.subscriptions).len()),
{
    let ghost subs = packet@.subscriptions;
    let mut remaining_len: usize = 2;
    let mut i: usize = 0;
    assert(subs.take(0) =~= Seq::<SubscriptionView>::empty());
    while i < packet.subscriptions.len()
        invariant
            i <= packet.subscriptions@.len(),
            subs == packet@.subscriptions,
            subs.len() == packet.subscriptions@.len(),
            remaining_len == capped(2 + subscriptions_enc(subs.take(i as int)).len()),
        decreases packet.subscriptions@.len() - i,
    {
        let sub = &packet.subscriptions[i];
        proof {
            assert(subs[i as int] == sub@);
            assert(subs.take(i as int + 1) =~= subs.take(i as int) + seq![sub@]);
            lemma_subscriptions_enc_append(subs.take(i as int), seq![sub@]);
            lemma_subscriptions_enc_one(sub@);
            lemma_field_lens(sub.topic_filter@, seq![]);
            let before: nat = (2 + subscriptions_enc(subs.take(i as int)).len()) as nat;
            lemma_capped_add(before, string_enc(sub.topic_filter@).len());
            lemma_capped_add((before + string_enc(sub.topic_filter@).len()) as nat, 1);
        }
        remaining_len = remaining_len.saturating_add(string_size(sub.topic_filter.as_str()));
        remaining_len = remaining_len.saturating_add(1);
        i = i + 1;
    }
    assert(subs.take(subs.len() as int) =~= subs);
    remaining_len
}

/// Append the encoded subscriptions.
fn write_subscriptions(buf: &mut BytesMut, subscriptions: &Vec<Subscription>)
    requires
        bytes_mut_seq(*old(buf)).len() + subscriptions_enc(
            subscriptions@.map_values(|s: Subscription| s@),
        ).len() <= isize::MAX,
    ensures
        bytes_mut_seq(*final(buf)) == bytes_mut_seq(*old(buf)) + subscriptions_enc(
            subscriptions@.map_values(|s: Subscription| s@),
        ),
{
    let ghost subs = subscriptions@.map_values(|s: Subscription| s@);
    let ghost head = bytes_mut_seq(*buf);
    let mut i: usize = 0;
    assert(subs.take(0) =~= Seq::<SubscriptionView>::empty());
    assert(bytes_mut_seq(*buf) =~= head + subscriptions_enc(subs.take(0)));
    while i < subscriptions.len()
        invariant
            i <= subscriptions@.len(),
            subs == subscriptions@.map_values(|s: Subscription| s@),
            head.len() + subscriptions_enc(subs).len() <= isize::MAX,
            bytes_mut_seq(*buf) == head + subscriptions_enc(subs.take(i as int)),
        decreases subscriptions@.len() - i,
    {
        let sub = &subscriptions[i];
        proof {
            assert(subs[i as int] == sub@);
            assert(subs.take(i as int + 1) =~= subs.take(i as int) + seq![sub@]);
            lemma_subscriptions_enc_append(subs.take(i as int), seq![sub@]);
            lemma_subscriptions_enc_one(sub@);
            assert(subs =~= subs.take(i as int + 1) + subs.skip(i as int + 1));
            lemma_subscriptions_enc_append(subs.take(i as int + 1), subs.skip(i as int + 1));
            lemma_field_lens(sub.topic_filter@, seq![]);
        }
        encode_string(buf, sub.topic_filter.as_str());
        bytes_mut_put_u8(buf, sub.qos.value());
        assert(bytes_mut_seq(*buf) =~= head + subscriptions_enc(subs.take(i as int + 1)));
        i = i + 1;
    }
    assert(subs.take(subs.len() as int) =~= subs);
}

/// Encode a SUBSCRIBE packet.
fn encode_subscribe(packet: &Subscribe) -> (r: EncodeResult)
    ensures
        encoded_as(r, spec_encode_packet(PacketView::Subscribe(packet@))),
{
    if packet.subscriptions.len() == 0 {
        return Err(
            EncodeError::InvalidState("SUBSCRIBE must have at least one subscription".to_string()),
        );
    }
    let ghost subs = packet@.subscriptions;
    let remaining_len = subscribe_remaining_len(packet);
    let mut buf = new_packet_buffer(remaining_len);

    // Fixed header: SUBSCRIBE = 0x82 (flags 0010)
    write_header(&mut buf, 0x82, remaining_len)?;
    let ghost head = bytes_mut_seq(buf);

    // Variable header
    put_u16(&mut buf, packet.packet_id);

    // Payload
    write_subscriptions(&mut buf, &packet.subscriptions);
    assert(bytes_mut_seq(buf) =~= head + (be16(packet.packet_id as nat) + subscriptions_enc(subs)));
    Ok(buf)
}

/// Append the wire values of the return codes.
fn write_return_codes(buf: &mut BytesMut, codes: &Vec<SubAckCode>)
    requires
        bytes_mut_seq(*old(buf)).len() + codes@.len() <= isize::MAX,
    ensures
        bytes_mut_seq(*final(buf)) == bytes_mut_seq(*old(buf)) + return_codes_enc(codes@),
{
    let ghost head = bytes_mut_seq(*buf);
    let mut i: usize = 0;
    assert(return_codes_enc(codes@.take(0)) =~= Seq::<u8>::empty());
    assert(bytes_mut_seq(*buf) =~= head + return_codes_enc(codes@.take(0)));
    while i < codes.len()
        invariant
            i <= codes@.len(),
            head.len() + codes@.len() <= isize::MAX,
            bytes_mut_seq(*buf) == head + return_codes_enc(codes@.take(i as int)),
        decreases codes@.len() - i,
    {
        bytes_mut_put_u8(buf, codes[i].to_u8());
        assert(return_codes_enc(codes@.take(i as int + 1)) =~= return_codes_enc(
            codes@.take(i as int),
        ).push(suback_code_value(codes@[i as int])));
        assert(bytes_mut_seq(*buf) =~= head + return_codes_enc(codes@.take(i as int + 1)));
        i = i + 1;
    }
    assert(codes@.take(codes@.len() as int) =~= codes@);
}

/// Encode a SUBACK packet.
fn encode_suback(packet: &SubAck) -> (r: EncodeResult)
    ensures
        encoded_as(r, spec_encode_packet(PacketView::SubAck(packet@))),
{
    if packet.return_codes.len() == 0 {
        return Err(
            EncodeError::InvalidState("SUBACK must have at least one return code".to_string()),
        );
    }
    let ghost codes = packet@.return_codes;
    // Packet identifier and return codes
    let remaining_len = 2usize.saturating_add(packet.return_codes.len());
    let mut buf = new_packet_buffer(remaining_len);

    // Fixed header: SUBACK = 0x90
    write_header(&mut buf, 0x90, remaining_len)?;
    let ghost head = bytes_mut_seq(buf);

    // Variable header
    put_u16(&mut buf, packet.packet_id);

    // Payload
    write_return_codes(&mut buf, &packet.return_codes);
    assert(bytes_mut_seq(buf) =~= head + (be16(packet.packet_id as nat) + return_codes_enc(codes)));
    Ok(buf)
}

/// Encoding a concatenation of filter lists concatenates the encodings.
proof fn lemma_filters_enc_append(a: Seq<Seq<char>>, b: Seq<Seq<char>>)
    ensures
        filters_enc(a + b) == filters_enc(a) + filters_enc(b),
    decreases a.len(),
{
    if a.len() == 0 {
        assert(a + b =~= b);
    } else {
        assert((a + b).drop_first() =~= a.drop_first() + b);
        lemma_filters_enc_append(a.drop_first(), b);
        assert(filters_enc(a + b) =~= filters_enc(a) + filters_enc(b));
    }
}

/// A list of one filter encodes as that filter.
proof fn lemma_filters_enc_one(x: Seq<char>)
    ensures
        filters_enc(seq![x]) == string_enc(x),
{
    assert(seq![x].drop_first() =~= Seq::<Seq<char>>::empty());
    assert(filters_enc(Seq::<Seq<char>>::empty()) == Seq::<u8>::empty());
    assert(filters_enc(seq![x]) =~= string_enc(x));
}

/// The remaining length of an UNSUBSCRIBE packet, capped at `usize::MAX`.
fn unsubscribe_remaining_len(packet: &Unsubscribe) -> (r: usize)
    ensures
        r == capped(2 + filters_enc(packet@.topic_filters).len()),
{
    let ghost filters = packet@.topic_filters;
    let mut remaining_len: usize = 2;
    let mut i: usize = 0;
    assert(filters.take(0) =~= Seq::<Seq<char>>::empty());
    while i < packet.topic_filters.len()
        invariant
            i <= packet.topic_filters@.len(),
            filters == packet@.topic_filters,
            filters.len() == packet.topic_filters@.len(),
            remaining_len == capped(2 + filters_enc(filters.take(i as int)).len()),
        decreases packet.topic_filters@.len() - i,
    {
        let filter = &packet.topic_filters[i];
        proof {
            assert(filters[i as int] == filter@);
            assert(filters.take(i as int + 1) =~= filters.take(i as int) + seq![filter@]);
            lemma_filters_enc_append(filters.take(i as int), seq![filter@]);
            lemma_filters_enc_one(filter@);
            let before: nat = (2 + filters_enc(filters.take(i as int)).len()) as nat;
            lemma_capped_add(before, string_enc(filter@).len());
        }
        remaining_len = remaining_len.saturating_add(string_size(filter.as_str()));
        i = i + 1;
    }
    assert(filters.take(filters.len() as int) =~= filters);
    remaining_len
}

/// Append the encoded topic filters.
fn write_filters(buf: &mut BytesMut, topic_filters: &Vec<String>)
    requires
        bytes_mut_seq(*old(buf)).len() + filters_enc(topic_filters@.map_values(|s: String| s@)).len()
            <= isize::MAX,
    ensures
        bytes_mut_seq(*final(buf)) == bytes_mut_seq(*old(buf)) + filters_enc(
            topic_filters@.map_values(|s: String| s@),
        ),
{
    let ghost filters = topic_filters@.map_values(|s: String| s@);
    let ghost head = bytes_mut_seq(*buf);
    let mut i: usize = 0;
    assert(filters.take(0) =~= Seq::<Seq<char>>::empty());
    assert(bytes_mut_seq(*buf) =~= head + filters_enc(filters.take(0)));
    while i < topic_filters.len()
        invariant
            i <= topic_filters@.len(),
            filters == topic_filters@.map_values(|s: String| s@),
            head.len() + filters_enc(filters).len() <= isize::MAX,
            bytes_mut_seq(*buf) == head + filters_enc(filters.take(i as int)),
        decreases topic_filters@.len() - i,
    {
        let filter = &topic_filters[i];
        proof {
            assert(filters[i as int] == filter@);
            assert(filters.take(i as int + 1) =~= filters.take(i as int) + seq![filter@]);
            lemma_filters_enc_append(filters.take(i as int), seq![filter@]);
            lemma_filters_enc_one(filter@);
            assert(filters =~= filters.take(i as int + 1) + filters.skip(i as int + 1));
            lemma_filters_enc_append(filters.take(i as int + 1), filters.skip(i as int + 1));
            lemma_field_lens(filter@, seq![]);
        }
        encode_string(buf, filter.as_str());
        assert(bytes_mut_seq(*buf) =~= head + filters_enc(filters.take(i as int + 1)));
        i = i + 1;
    }
    assert(filters.take(filters.len() as int) =~= filters);
}

/// Encode an UNSUBSCRIBE packet.
fn encode_unsubscribe(packet: &Unsubscribe) -> (r: EncodeResult)
    ensures
        encoded_as(r, spec_encode_packet(PacketView::Unsubscribe(packet@))),
{
    if packet.topic_filters.len() == 0 {
        return Err(
            EncodeError::InvalidState(
                "UNSUBSCRIBE must have at least one topic filter".to_string(),
            ),
        );
    }
    let ghost filters = packet@.topic_filters;
    let remaining_len = unsubscribe_remaining_len(packet);
    let mut buf = new_packet_buffer(remaining_len);

    // Fixed header: UNSUBSCRIBE = 0xA2 (flags 0010)
    write_header(&mut buf, 0xA2, remaining_len)?;
    let ghost head = bytes_mut_seq(buf);

    // Variable header
    put_u16(&mut buf, packet.packet_id);

    // Payload
    write_filters(&mut buf, &packet.topic_filters);
    assert(bytes_mut_seq(buf) =~= head + (be16(packet.packet_id as nat) + filters_enc(filters)));
    Ok(buf)
}

/// Encode a packet into a byte buffer.
pub fn encode_packet(packet: &Packet) -> (r: EncodeResult)
    ensures
        encoded_as(r, spec_encode_packet(packet@)),
{
    match packet {
        Packet::Connect(p) => encode_connect(p),
        Packet::ConnAck(p) => encode_connack(p),
        Packet::Publish(p) => encode_publish(p),
        Packet::PubAck(p) => encode_puback(p),
        Packet::PubRec(p) => encode_pubrec(p),
        Packet::PubRel(p) => encode_pubrel(p),
        Packet::PubComp(p) => encode_pubcomp(p),
        Packet::Subscribe(p) => encode_subscribe(p),
        Packet::SubAck(p) => encode_suback(p),
        Packet::Unsubscribe(p) => encode_unsubscribe(p),
        Packet::UnsubAck(p) => encode_unsuback(p),
        // Fixed header only: PINGREQ = 0xC0, PINGRESP = 0xD0, DISCONNECT = 0xE0
        Packet::PingReq => encode_empty_packet(0xC0),
        Packet::PingResp => encode_empty_packet(0xD0),
        Packet::Disconnect => encode_empty_packet(0xE0),
    }
}

/// A CONNACK is four bytes on the wire: 0x20, the remaining length 2, the
/// session-present flag (0 or 1) and the return code of MQTT 3.1.1
/// §3.2.2.3: accepted 0, unacceptable protocol version 1, identifier
/// rejected 2, server unavailable 3, bad user name or password 4, not
/// authorized 5.
pub proof fn lemma_connack_bytes(session_present: bool, return_code: ConnectReturnCode)
    ensures
        ({
            let b = spec_encode_packet(PacketView::ConnAck(ConnAck { session_present, return_code }));
            &&& b is Ok
            &&& b->Ok_0.len() == 4
            &&& b->Ok_0[0] == 0x20
            &&& b->Ok_0[1] == 0x02
            &&& b->Ok_0[2] == (if session_present { 1u8 } else { 0u8 })
            &&& return_code == ConnectReturnCode::Accepted ==> b->Ok_0[3] == 0
            &&& return_code == ConnectReturnCode::UnacceptableProtocolVersion ==> b->Ok_0[3] == 1
            &&& return_code == ConnectReturnCode::IdentifierRejected ==> b->Ok_0[3] == 2
            &&& return_code == ConnectReturnCode::ServerUnavailable ==> b->Ok_0[3] == 3
            &&& return_code == ConnectReturnCode::BadUsernameOrPassword ==> b->Ok_0[3] == 4
            &&& return_code == ConnectReturnCode::NotAuthorized ==> b->Ok_0[3] == 5
        }),
{
    crate::codec::types::lemma_return_code_values();
}

/// Every encoded packet starts with its fixed header byte (MQTT 3.1.1
/// §2.2): the packet type in the high four bits, and in the low four bits
/// 2 for PUBREL, SUBSCRIBE and UNSUBSCRIBE, DUP (bit 3), QoS (bits 1-2)
/// and RETAIN (bit 0) for PUBLISH, and 0 for every other type.
#[verifier::rlimit(30)]
pub proof fn lemma_encoded_first_byte(p: PacketView)
    ensures
        spec_encode_packet(p) matches Ok(b) ==> {
            &&& b.len() >= 2
            &&& b[0] / 16 == crate::codec::packet::packet_type_of(p)
            &&& match p {
                PacketView::PubRel(_) | PacketView::Subscribe(_) | PacketView::Unsubscribe(_) => b[0] % 16 == 2,
                PacketView::Publish(v) => b[0] % 16 == (if v.dup { 8int } else { 0int }) + 2 * qos_value(v.qos)
                    + (if v.retain { 1int } else { 0int }),
                _ => b[0] % 16 == 0,
            }
        },
{
    match p {
        PacketView::Publish(v) => {
            lemma_publish_first_byte(v);
        },
        PacketView::Connect(c) => {
            lemma_framed_first_byte(0x10, connect_body(c));
        },
        PacketView::Subscribe(v) => {
            lemma_framed_first_byte(0x82, be16(v.packet_id as nat) + subscriptions_enc(v.subscriptions));
        },
        PacketView::SubAck(v) => {
            lemma_framed_first_byte(0x90, be16(v.packet_id as nat) + return_codes_enc(v.return_codes));
        },
        PacketView::Unsubscribe(v) => {
            lemma_framed_first_byte(0xA2, be16(v.packet_id as nat) + filters_enc(v.topic_filters));
        },
        _ => {},
    }
}

/// The first byte of an encoded PUBLISH: type 3, then DUP, QoS and RETAIN.
proof fn lemma_publish_first_byte(v: PublishView)
    ensures
        spec_encode_packet(PacketView::Publish(v)) matches Ok(b) ==> {
            &&& b.len() >= 2
            &&& b[0] / 16 == 3
            &&& b[0] % 16 == (if v.dup { 8int } else { 0int }) + 2 * qos_value(v.qos) + (if v.retain {
                1int
            } else {
                0int
            })
        },
{
    let h = FixedHeader { packet_type: 3, dup: v.dup, qos: v.qos, retain: v.retain };
    crate::codec::types::lemma_publish_header_byte(h);
    lemma_framed_first_byte(fixed_header_byte(h), publish_body(v));
}

/// A framed packet starts with its header byte and is at least two bytes.
proof fn lemma_framed_first_byte(header: u8, body: Seq<u8>)
    ensures
        framed(header, body) matches Ok(b) ==> b.len() >= 2 && b[0] == header,
{
    if body.len() <= MAX_REMAINING_LENGTH {
        let v = varint_bytes(body.len());
        assert((seq![header] + v + body)[0] == header);
        assert(v.len() >= 1);
    }
}

} // verus!
