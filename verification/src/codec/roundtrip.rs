//! What decoding gives back of what encoding wrote.

use vstd::prelude::*;

use vstd::utf8::encode_utf8;

use crate::strings::lemma_encode_utf8_ascii;

use crate::codec::decode::{
    binary_field, connect_rest, field_bytes, filters_from, password_field, return_codes_from,
    spec_decode_ack_id, spec_decode_body, spec_decode_connack, spec_decode_connect,
    spec_decode_packet, spec_decode_publish, spec_decode_subscribe,
    spec_decode_suback, spec_decode_unsubscribe, string_field, subscriptions_from, u16_at,
    u16_field, username_field, utf8_chars, utf8_ok, will_fields,
};
use crate::codec::encode::{
    be16, binary_enc, connect_body, framed, id_packet, spec_encode_packet, connect_fixed, filters_enc, opt_binary_enc, opt_string_enc, publish_body, publish_len, return_codes_enc, string_enc,
    subscription_enc, subscriptions_enc, will_enc,
};
use crate::codec::error::DecodeFailure;
use crate::codec::varint::{lemma_varint_roundtrip, varint_bytes, varint_read, VarintRead};
use crate::codec::packet::{
    ConnAck, ConnectView, PacketView, PubAck, PubComp, PubRec, PubRel, PublishView, SubAckView,
    SubscribeView, UnsubAck, UnsubscribeView,
};
use crate::codec::types::{
    connect_flags_byte, connect_flags_of_byte, connect_flags_valid, lemma_connect_flags_roundtrip,
    fixed_header_byte, fixed_header_of_byte, lemma_qos_value_roundtrip, lemma_suback_code_roundtrip,
    qos_value, return_code_value, ConnectReturnCode, FixedHeader, QoS, SubAckCode,
    SubscriptionView, MAX_REMAINING_LENGTH,
};

verus! {

/// A string whose UTF-8 encoding fits a 16-bit length prefix.
pub open spec fn string_fits(s: Seq<char>) -> bool {
    encode_utf8(s).len() <= 65535
}

/// Binary data that fits a 16-bit length prefix.
pub open spec fn binary_fits(d: Seq<u8>) -> bool {
    d.len() <= 65535
}

/// The 16-bit value written by `be16` is read back.
proof fn lemma_be16(pre: Seq<u8>, v: nat, post: Seq<u8>)
    requires
        v < 65536,
    ensures
        u16_at(pre + be16(v) + post, pre.len()) == v,
        u16_field(pre + be16(v) + post, pre.len()) == Ok::<(u16, nat), DecodeFailure>(
            (v as u16, pre.len() + 2),
        ),
{
    let b = pre + be16(v) + post;
    assert(b[pre.len() as int] == ((v / 256) % 256) as u8);
    assert(b[pre.len() as int + 1] == (v % 256) as u8);
    assert((v / 256) % 256 == v / 256);
}

/// A length-prefixed string is read back.
proof fn lemma_string_field(pre: Seq<u8>, s: Seq<char>, post: Seq<u8>)
    requires
        string_fits(s),
    ensures
        field_bytes(pre + string_enc(s) + post, pre.len()) == encode_utf8(s),
        string_field(pre + string_enc(s) + post, pre.len()) == Ok::<
            (Seq<char>, nat),
            DecodeFailure,
        >((s, pre.len() + string_enc(s).len())),
        string_enc(s).len() == 2 + encode_utf8(s).len(),
{
    broadcast use vstd::utf8::group_utf8_lib;

    reveal(utf8_ok);
    reveal(utf8_chars);
    let e = encode_utf8(s);
    let b = pre + string_enc(s) + post;
    assert(pre + string_enc(s) + post =~= pre + be16(e.len()) + (e + post));
    lemma_be16(pre, e.len(), e + post);
    assert(field_bytes(b, pre.len()) =~= e);
}

/// Length-prefixed binary data is read back.
proof fn lemma_binary_field(pre: Seq<u8>, d: Seq<u8>, post: Seq<u8>)
    requires
        binary_fits(d),
    ensures
        binary_field(pre + binary_enc(d) + post, pre.len()) == Ok::<
            (Seq<u8>, nat),
            DecodeFailure,
        >((d, pre.len() + binary_enc(d).len())),
        binary_enc(d).len() == 2 + d.len(),
{
    let b = pre + binary_enc(d) + post;
    assert(pre + binary_enc(d) + post =~= pre + be16(d.len()) + (d + post));
    lemma_be16(pre, d.len(), d + post);
    assert(field_bytes(b, pre.len()) =~= d);
}

/// A CONNECT packet that decoding gives back as it was: a protocol name and
/// level that the decoder accepts, flags that agree with the fields that are
/// there, a client identifier that is non-empty unless the session is clean,
/// fields that fit their length prefixes, and a body within the remaining
/// length limit.
pub open spec fn connect_well_formed(c: ConnectView) -> bool {
    &&& (c.protocol_name == "MQTT"@ || c.protocol_name == "MQIsdp"@)
    &&& (c.protocol_level == 3 || c.protocol_level == 4)
    &&& connect_flags_valid(c.flags)
    &&& c.flags.will == c.will is Some
    &&& c.flags.username == c.username is Some
    &&& c.flags.password == c.password is Some
    &&& (c.will matches Some(w) ==> w.qos == c.flags.will_qos && w.retain == c.flags.will_retain
        && string_fits(w.topic) && binary_fits(w.message))
    &&& (c.client_id.len() > 0 || c.flags.clean_session)
    &&& string_fits(c.client_id)
    &&& (c.username matches Some(u) ==> string_fits(u))
    &&& (c.password matches Some(p) ==> binary_fits(p))
    &&& connect_body(c).len() <= MAX_REMAINING_LENGTH
}

proof fn lemma_protocol_names_fit(c: ConnectView)
    requires
        c.protocol_name == "MQTT"@ || c.protocol_name == "MQIsdp"@,
    ensures
        string_fits(c.protocol_name),
{
    reveal_strlit("MQTT");
    reveal_strlit("MQIsdp");
    let n = c.protocol_name;
    assert(encode_utf8(n).len() <= 4 * n.len()) by {
        lemma_encode_utf8_len(n);
    }
}

/// Each character takes at most four bytes.
proof fn lemma_encode_utf8_len(s: Seq<char>)
    ensures
        encode_utf8(s).len() <= 4 * s.len(),
        s.len() > 0 ==> encode_utf8(s).len() > 0,
    decreases s.len(),
{
    if s.len() > 0 {
        lemma_encode_utf8_len(s.drop_first());
    }
}

/// The optional fields after the client identifier are read back.
proof fn lemma_connect_tail(pre: Seq<u8>, c: ConnectView)
    requires
        connect_well_formed(c),
    ensures
        ({
            let b = pre + will_enc(c.will) + opt_string_enc(c.username) + opt_binary_enc(c.password);
            &&& will_fields(b, pre.len(), c.flags) == Ok::<_, DecodeFailure>(
                (c.will, pre.len() + will_enc(c.will).len()),
            )
            &&& username_field(b, pre.len() + will_enc(c.will).len(), c.flags) == Ok::<
                _,
                DecodeFailure,
            >((c.username, pre.len() + will_enc(c.will).len() + opt_string_enc(c.username).len()))
            &&& password_field(
                b,
                pre.len() + will_enc(c.will).len() + opt_string_enc(c.username).len(),
                c.flags,
            ) == Ok::<_, DecodeFailure>(c.password)
        }),
{
    let w = will_enc(c.will);
    let u = opt_string_enc(c.username);
    let pw = opt_binary_enc(c.password);
    let b = pre + w + u + pw;
    match c.will {
        Some(wv) => {
            assert(b =~= pre + string_enc(wv.topic) + (binary_enc(wv.message) + u + pw));
            lemma_string_field(pre, wv.topic, binary_enc(wv.message) + u + pw);
            assert(b =~= (pre + string_enc(wv.topic)) + binary_enc(wv.message) + (u + pw));
            lemma_binary_field(pre + string_enc(wv.topic), wv.message, u + pw);
        },
        None => {},
    }
    match c.username {
        Some(un) => {
            assert(b =~= (pre + w) + string_enc(un) + pw);
            lemma_string_field(pre + w, un, pw);
        },
        None => {},
    }
    match c.password {
        Some(pv) => {
            assert(b =~= (pre + w + u) + binary_enc(pv) + Seq::<u8>::empty());
            lemma_binary_field(pre + w + u, pv, Seq::<u8>::empty());
        },
        None => {},
    }
}

/// From the keep-alive on, the body of a CONNECT packet is read back.
#[verifier::rlimit(60)]
proof fn lemma_connect_rest(pre1: Seq<u8>, c: ConnectView)
    requires
        connect_well_formed(c),
    ensures
        connect_rest(
            pre1 + be16(c.keep_alive as nat) + string_enc(c.client_id) + will_enc(c.will)
                + opt_string_enc(c.username) + opt_binary_enc(c.password),
            pre1.len(),
            c.protocol_name,
            c.protocol_level,
            c.flags,
        ) == Ok::<ConnectView, DecodeFailure>(c),
{
    let tail = will_enc(c.will) + opt_string_enc(c.username) + opt_binary_enc(c.password);
    let b = pre1 + be16(c.keep_alive as nat) + string_enc(c.client_id) + will_enc(c.will)
        + opt_string_enc(c.username) + opt_binary_enc(c.password);
    let pre2 = pre1 + be16(c.keep_alive as nat);
    let pre3 = pre2 + string_enc(c.client_id);
    assert(u16_field(b, pre1.len()) == Ok::<(u16, nat), DecodeFailure>((c.keep_alive, pre2.len()))) by {
        assert(b =~= pre1 + be16(c.keep_alive as nat) + (string_enc(c.client_id) + tail));
        lemma_be16(pre1, c.keep_alive as nat, string_enc(c.client_id) + tail);
    }
    assert(string_field(b, pre2.len()) == Ok::<(Seq<char>, nat), DecodeFailure>((c.client_id, pre3.len()))) by {
        assert(b =~= pre2 + string_enc(c.client_id) + tail);
        lemma_string_field(pre2, c.client_id, tail);
    }
    let p3 = pre3.len() + will_enc(c.will).len();
    let p4 = p3 + opt_string_enc(c.username).len();
    assert(will_fields(b, pre3.len(), c.flags) == Ok::<_, DecodeFailure>((c.will, p3))
        && username_field(b, p3, c.flags) == Ok::<_, DecodeFailure>((c.username, p4))
        && password_field(b, p4, c.flags) == Ok::<_, DecodeFailure>(c.password)) by {
        assert(b =~= pre3 + will_enc(c.will) + opt_string_enc(c.username) + opt_binary_enc(c.password));
        lemma_connect_tail(pre3, c);
    }
}

/// The body of a CONNECT packet, split after the protocol name.
proof fn lemma_connect_body_split(c: ConnectView)
    ensures
        connect_body(c) == Seq::<u8>::empty() + string_enc(c.protocol_name) + (seq![
            c.protocol_level,
            connect_flags_byte(c.flags),
        ] + be16(c.keep_alive as nat) + string_enc(c.client_id) + will_enc(c.will)
            + opt_string_enc(c.username) + opt_binary_enc(c.password)),
{
    assert(connect_body(c) =~= Seq::<u8>::empty() + string_enc(c.protocol_name) + (seq![
        c.protocol_level,
        connect_flags_byte(c.flags),
    ] + be16(c.keep_alive as nat) + string_enc(c.client_id) + will_enc(c.will)
        + opt_string_enc(c.username) + opt_binary_enc(c.password)));
}

/// The protocol name, level and flags at the start of a CONNECT body.
proof fn lemma_connect_head(c: ConnectView)
    requires
        connect_well_formed(c),
    ensures
        string_field(connect_body(c), 0) == Ok::<(Seq<char>, nat), DecodeFailure>(
            (c.protocol_name, string_enc(c.protocol_name).len()),
        ),
        connect_body(c).len() >= string_enc(c.protocol_name).len() + 2,
        connect_body(c)[string_enc(c.protocol_name).len() as int] == c.protocol_level,
        connect_body(c)[string_enc(c.protocol_name).len() as int + 1] == connect_flags_byte(c.flags),
        connect_body(c) == string_enc(c.protocol_name) + seq![c.protocol_level, connect_flags_byte(c.flags)]
            + be16(c.keep_alive as nat) + string_enc(c.client_id) + will_enc(c.will)
            + opt_string_enc(c.username) + opt_binary_enc(c.password),
{
    let fb = connect_flags_byte(c.flags);
    let post = seq![c.protocol_level, fb] + be16(c.keep_alive as nat) + string_enc(c.client_id)
        + will_enc(c.will) + opt_string_enc(c.username) + opt_binary_enc(c.password);
    lemma_connect_body_split(c);
    lemma_protocol_names_fit(c);
    lemma_string_field(Seq::<u8>::empty(), c.protocol_name, post);
}

/// The body of a well-formed CONNECT packet decodes to the packet.
#[verifier::rlimit(30)]
proof fn lemma_connect_decode(c: ConnectView)
    requires
        connect_well_formed(c),
    ensures
        spec_decode_connect(connect_body(c)) == Ok::<ConnectView, DecodeFailure>(c),
{
    let b = connect_body(c);
    let fb = connect_flags_byte(c.flags);
    let pre1 = string_enc(c.protocol_name) + seq![c.protocol_level, fb];
    lemma_connect_head(c);
    lemma_connect_flags_roundtrip(c.flags);
    lemma_connect_rest(pre1, c);
}

// ----------------------------------------------------------------------------
// PUBLISH
// ----------------------------------------------------------------------------

/// A PUBLISH packet that decoding gives back as it was: a non-empty topic
/// without wildcards that fits its length prefix, a non-zero packet
/// identifier exactly when the QoS is above 0, and a body within the
/// remaining length limit.
pub open spec fn publish_well_formed(p: PublishView) -> bool {
    &&& string_fits(p.topic)
    &&& p.topic.len() > 0
    &&& !p.topic.contains('+')
    &&& !p.topic.contains('#')
    &&& (p.qos == QoS::AtMostOnce <==> p.packet_id is None)
    &&& p.packet_id != Some(0u16)
    &&& publish_len(p) <= MAX_REMAINING_LENGTH
}

/// The body of a well-formed PUBLISH packet decodes to the packet.
proof fn lemma_publish_decode(p: PublishView)
    requires
        publish_well_formed(p),
    ensures
        spec_decode_publish(
            publish_body(p),
            FixedHeader { packet_type: 3, dup: p.dup, qos: p.qos, retain: p.retain },
        ) == Ok::<PublishView, DecodeFailure>(p),
{
    let b = publish_body(p);
    let t = string_enc(p.topic);
    let idp: Seq<u8> = if p.qos != QoS::AtMostOnce {
        be16(p.packet_id.unwrap() as nat)
    } else {
        seq![]
    };
    assert(b =~= Seq::<u8>::empty() + t + (idp + p.payload));
    lemma_string_field(Seq::<u8>::empty(), p.topic, idp + p.payload);
    lemma_encode_utf8_len(p.topic);
    lemma_encode_utf8_ascii(p.topic, '+', 43u8);
    lemma_encode_utf8_ascii(p.topic, '#', 35u8);
    if p.qos != QoS::AtMostOnce {
        assert(b =~= t + be16(p.packet_id.unwrap() as nat) + p.payload);
        lemma_be16(t, p.packet_id.unwrap() as nat, p.payload);
        assert(b.subrange(t.len() as int + 2, b.len() as int) =~= p.payload);
    } else {
        assert(b.subrange(t.len() as int, b.len() as int) =~= p.payload);
    }
}

// ----------------------------------------------------------------------------
// Packets that carry a packet identifier, SUBSCRIBE, SUBACK, UNSUBSCRIBE
// ----------------------------------------------------------------------------

/// A non-zero packet identifier is read back.
proof fn lemma_ack_id_decode(id: u16, context: Seq<char>)
    requires
        id != 0,
    ensures
        spec_decode_ack_id(be16(id as nat), context) == Ok::<u16, DecodeFailure>(id),
{
    lemma_be16(Seq::<u8>::empty(), id as nat, Seq::<u8>::empty());
    assert(Seq::<u8>::empty() + be16(id as nat) + Seq::<u8>::empty() =~= be16(id as nat));
}

/// Every topic filter of the list fits its length prefix.
pub open spec fn filters_fit(f: Seq<Seq<char>>) -> bool {
    forall|i: int| 0 <= i < f.len() ==> string_fits(#[trigger] f[i])
}

/// Every topic filter of the subscriptions fits its length prefix.
pub open spec fn subscriptions_fit(s: Seq<SubscriptionView>) -> bool {
    forall|i: int| 0 <= i < s.len() ==> string_fits(#[trigger] s[i].topic_filter)
}

/// An encoded subscription list is read back to its end.
proof fn lemma_subscriptions_from(pre: Seq<u8>, subs: Seq<SubscriptionView>)
    requires
        subscriptions_fit(subs),
    ensures
        subscriptions_from(pre + subscriptions_enc(subs), pre.len()) == Ok::<
            Seq<SubscriptionView>,
            DecodeFailure,
        >(subs),
    decreases subs.len(),
{
    let b = pre + subscriptions_enc(subs);
    if subs.len() == 0 {
        assert(b.len() == pre.len());
        assert(subs =~= Seq::<SubscriptionView>::empty());
    } else {
        let s0 = subs[0];
        let rest = subs.drop_first();
        let pre2 = pre + subscription_enc(s0);
        assert(subscriptions_fit(rest)) by {
            assert forall|i: int| 0 <= i < rest.len() implies string_fits(#[trigger] rest[i].topic_filter) by {
                assert(rest[i] == subs[i + 1]);
            }
        }
        assert(string_fits(subs[0].topic_filter));
        assert(b =~= pre + string_enc(s0.topic_filter) + (seq![crate::codec::types::qos_value(s0.qos)] + subscriptions_enc(rest)));
        lemma_string_field(pre, s0.topic_filter, seq![crate::codec::types::qos_value(s0.qos)] + subscriptions_enc(rest));
        lemma_qos_value_roundtrip(s0.qos);
        let p1 = pre.len() + string_enc(s0.topic_filter).len();
        assert(b[p1 as int] == crate::codec::types::qos_value(s0.qos));
        assert(b =~= pre2 + subscriptions_enc(rest));
        lemma_subscriptions_from(pre2, rest);
        assert(seq![SubscriptionView { topic_filter: s0.topic_filter, qos: s0.qos }] + rest =~= subs);
    }
}

/// Encoded return codes are read back to the end.
proof fn lemma_return_codes_from(pre: Seq<u8>, codes: Seq<SubAckCode>)
    ensures
        return_codes_from(pre + return_codes_enc(codes), pre.len()) == Ok::<
            Seq<SubAckCode>,
            DecodeFailure,
        >(codes),
    decreases codes.len(),
{
    let b = pre + return_codes_enc(codes);
    if codes.len() == 0 {
        assert(b.len() == pre.len());
        assert(codes =~= Seq::<SubAckCode>::empty());
    } else {
        let rest = codes.drop_first();
        let pre2 = pre + seq![crate::codec::types::suback_code_value(codes[0])];
        lemma_suback_code_roundtrip(codes[0]);
        assert(b[pre.len() as int] == crate::codec::types::suback_code_value(codes[0]));
        assert(b =~= pre2 + return_codes_enc(rest));
        lemma_return_codes_from(pre2, rest);
        assert(seq![codes[0]] + rest =~= codes);
    }
}

/// An encoded topic filter list is read back to its end.
proof fn lemma_filters_from(pre: Seq<u8>, f: Seq<Seq<char>>)
    requires
        filters_fit(f),
    ensures
        filters_from(pre + filters_enc(f), pre.len()) == Ok::<Seq<Seq<char>>, DecodeFailure>(f),
    decreases f.len(),
{
    let b = pre + filters_enc(f);
    if f.len() == 0 {
        assert(b.len() == pre.len());
        assert(f =~= Seq::<Seq<char>>::empty());
    } else {
        let rest = f.drop_first();
        let pre2 = pre + string_enc(f[0]);
        assert(filters_fit(rest)) by {
            assert forall|i: int| 0 <= i < rest.len() implies string_fits(#[trigger] rest[i]) by {
                assert(rest[i] == f[i + 1]);
            }
        }
        assert(string_fits(f[0]));
        assert(b =~= pre + string_enc(f[0]) + filters_enc(rest));
        lemma_string_field(pre, f[0], filters_enc(rest));
        assert(b =~= pre2 + filters_enc(rest));
        lemma_filters_from(pre2, rest);
        assert(seq![f[0]] + rest =~= f);
    }
}

/// A SUBSCRIBE packet that decoding gives back as it was.
pub open spec fn subscribe_well_formed(s: SubscribeView) -> bool {
    &&& s.packet_id != 0
    &&& s.subscriptions.len() > 0
    &&& subscriptions_fit(s.subscriptions)
    &&& 2 + subscriptions_enc(s.subscriptions).len() <= MAX_REMAINING_LENGTH
}

/// A SUBACK packet that decoding gives back as it was.
pub open spec fn suback_well_formed(s: SubAckView) -> bool {
    &&& s.packet_id != 0
    &&& s.return_codes.len() > 0
    &&& 2 + s.return_codes.len() <= MAX_REMAINING_LENGTH
}

/// An UNSUBSCRIBE packet that decoding gives back as it was.
pub open spec fn unsubscribe_well_formed(u: UnsubscribeView) -> bool {
    &&& u.packet_id != 0
    &&& u.topic_filters.len() > 0
    &&& filters_fit(u.topic_filters)
    &&& 2 + filters_enc(u.topic_filters).len() <= MAX_REMAINING_LENGTH
}

proof fn lemma_subscribe_decode(s: SubscribeView)
    requires
        subscribe_well_formed(s),
    ensures
        spec_decode_subscribe(be16(s.packet_id as nat) + subscriptions_enc(s.subscriptions))
            == Ok::<SubscribeView, DecodeFailure>(s),
{
    let b = be16(s.packet_id as nat) + subscriptions_enc(s.subscriptions);
    assert(b =~= Seq::<u8>::empty() + be16(s.packet_id as nat) + subscriptions_enc(s.subscriptions));
    lemma_be16(Seq::<u8>::empty(), s.packet_id as nat, subscriptions_enc(s.subscriptions));
    lemma_subscriptions_from(be16(s.packet_id as nat), s.subscriptions);
}

proof fn lemma_suback_decode(s: SubAckView)
    requires
        suback_well_formed(s),
    ensures
        spec_decode_suback(be16(s.packet_id as nat) + return_codes_enc(s.return_codes))
            == Ok::<SubAckView, DecodeFailure>(s),
{
    let b = be16(s.packet_id as nat) + return_codes_enc(s.return_codes);
    assert(b =~= Seq::<u8>::empty() + be16(s.packet_id as nat) + return_codes_enc(s.return_codes));
    lemma_be16(Seq::<u8>::empty(), s.packet_id as nat, return_codes_enc(s.return_codes));
    lemma_return_codes_from(be16(s.packet_id as nat), s.return_codes);
}

proof fn lemma_unsubscribe_decode(u: UnsubscribeView)
    requires
        unsubscribe_well_formed(u),
    ensures
        spec_decode_unsubscribe(be16(u.packet_id as nat) + filters_enc(u.topic_filters))
            == Ok::<UnsubscribeView, DecodeFailure>(u),
{
    let b = be16(u.packet_id as nat) + filters_enc(u.topic_filters);
    assert(b =~= Seq::<u8>::empty() + be16(u.packet_id as nat) + filters_enc(u.topic_filters));
    lemma_be16(Seq::<u8>::empty(), u.packet_id as nat, filters_enc(u.topic_filters));
    lemma_filters_from(be16(u.packet_id as nat), u.topic_filters);
}

// ----------------------------------------------------------------------------
// Whole packets
// ----------------------------------------------------------------------------

/// A framed body is split off again by its fixed header and remaining
/// length, whatever bytes follow it.
proof fn lemma_framed_decode(header: u8, h: FixedHeader, body: Seq<u8>, rest: Seq<u8>)
    requires
        fixed_header_of_byte(header) == Some(h),
        1 <= h.packet_type <= 14,
        body.len() <= MAX_REMAINING_LENGTH,
    ensures
        framed(header, body) matches Ok(b) && spec_decode_packet(b + rest) == match spec_decode_body(
            body,
            h,
        ) {
            Ok(p) => Ok::<(PacketView, nat), DecodeFailure>((p, b.len())),
            Err(e) => Err(e),
        },
{
    let v = varint_bytes(body.len());
    let b = seq![header] + v + body;
    let buf = b + rest;
    lemma_varint_roundtrip(body.len(), body + rest);
    assert(buf.skip(1) =~= v + (body + rest));
    assert(buf[0] == header);
    assert(buf.subrange(1 + v.len() as int, 1 + v.len() as int + body.len()) =~= body);
}

/// The fixed header byte of a PUBLISH packet is read back.
pub proof fn lemma_publish_header(h: FixedHeader)
    requires
        h.packet_type == 3,
    ensures
        fixed_header_of_byte(fixed_header_byte(h)) == Some(h),
{
    lemma_qos_value_roundtrip(h.qos);
    let d: int = if h.dup { 8 } else { 0 };
    let r: int = if h.retain { 1 } else { 0 };
    let q = qos_value(h.qos) as int;
    let byte = fixed_header_byte(h);
    assert(byte as int == 48 + d + 2 * q + r);
    assert(byte / 16 == 3);
    assert(byte % 16 == d + 2 * q + r);
    assert(((byte % 16) / 2) % 4 == q);
}

/// A packet that decoding gives back as it was (the conditions of each
/// packet type above; a CONNACK must not report a session for a refused
/// connection, and acknowledgments need a non-zero packet identifier).
pub open spec fn packet_well_formed(p: PacketView) -> bool {
    match p {
        PacketView::Connect(c) => connect_well_formed(c),
        PacketView::ConnAck(c) => !(c.session_present && c.return_code
            != ConnectReturnCode::Accepted),
        PacketView::Publish(p) => publish_well_formed(p),
        PacketView::PubAck(a) => a.packet_id != 0,
        PacketView::PubRec(a) => a.packet_id != 0,
        PacketView::PubRel(a) => a.packet_id != 0,
        PacketView::PubComp(a) => a.packet_id != 0,
        PacketView::Subscribe(s) => subscribe_well_formed(s),
        PacketView::SubAck(s) => suback_well_formed(s),
        PacketView::Unsubscribe(u) => unsubscribe_well_formed(u),
        PacketView::UnsubAck(a) => a.packet_id != 0,
        PacketView::PingReq => true,
        PacketView::PingResp => true,
        PacketView::Disconnect => true,
    }
}

/// A packet that carries only a packet identifier, framed.
proof fn lemma_id_packet_framed(header: u8, id: u16)
    ensures
        framed(header, be16(id as nat)) == Ok::<Seq<u8>, crate::codec::error::EncodeFailure>(
            id_packet(header, id),
        ),
{
    assert(varint_bytes(2) =~= seq![2u8]);
    assert(seq![header] + varint_bytes(2) + be16(id as nat) =~= id_packet(header, id));
}

/// A packet with an empty body, framed.
proof fn lemma_empty_packet_framed(header: u8)
    ensures
        framed(header, Seq::<u8>::empty()) == Ok::<Seq<u8>, crate::codec::error::EncodeFailure>(
            seq![header, 0u8],
        ),
{
    assert(varint_bytes(0) =~= seq![0u8]);
    assert(seq![header] + varint_bytes(0) + Seq::<u8>::empty() =~= seq![header, 0u8]);
}

proof fn lemma_roundtrip_connect(c: ConnectView, rest: Seq<u8>)
    requires
        connect_well_formed(c),
    ensures
        spec_encode_packet(PacketView::Connect(c)) matches Ok(b) && spec_decode_packet(b + rest) == Ok::<
            (PacketView, nat),
            DecodeFailure,
        >((PacketView::Connect(c), b.len())),
{
    let plain = FixedHeader { packet_type: 1, dup: false, qos: QoS::AtMostOnce, retain: false };
    lemma_connect_decode(c);
    lemma_framed_decode(0x10, plain, connect_body(c), rest);
}

proof fn lemma_roundtrip_connack(c: ConnAck, rest: Seq<u8>)
    requires
        !(c.session_present && c.return_code != ConnectReturnCode::Accepted),
    ensures
        spec_encode_packet(PacketView::ConnAck(c)) matches Ok(b) && spec_decode_packet(b + rest) == Ok::<
            (PacketView, nat),
            DecodeFailure,
        >((PacketView::ConnAck(c), b.len())),
{
    let plain = FixedHeader { packet_type: 2, dup: false, qos: QoS::AtMostOnce, retain: false };
    let body = seq![if c.session_present { 1u8 } else { 0u8 }, return_code_value(c.return_code)];
    assert(varint_bytes(2) =~= seq![2u8]);
    assert(seq![0x20u8] + varint_bytes(2) + body =~= seq![0x20u8, 0x02u8, body[0], body[1]]);
    assert(spec_decode_connack(body) == Ok::<ConnAck, DecodeFailure>(c));
    lemma_framed_decode(0x20, plain, body, rest);
}

proof fn lemma_roundtrip_publish(pv: PublishView, rest: Seq<u8>)
    requires
        publish_well_formed(pv),
    ensures
        spec_encode_packet(PacketView::Publish(pv)) matches Ok(b) && spec_decode_packet(b + rest) == Ok::<
            (PacketView, nat),
            DecodeFailure,
        >((PacketView::Publish(pv), b.len())),
{
    let h = FixedHeader { packet_type: 3, dup: pv.dup, qos: pv.qos, retain: pv.retain };
    lemma_publish_decode(pv);
    lemma_publish_header(h);
    lemma_framed_decode(fixed_header_byte(h), h, publish_body(pv), rest);
}

proof fn lemma_roundtrip_subscribe(sv: SubscribeView, rest: Seq<u8>)
    requires
        subscribe_well_formed(sv),
    ensures
        spec_encode_packet(PacketView::Subscribe(sv)) matches Ok(b) && spec_decode_packet(b + rest) == Ok::<
            (PacketView, nat),
            DecodeFailure,
        >((PacketView::Subscribe(sv), b.len())),
{
    let plain = FixedHeader { packet_type: 8, dup: false, qos: QoS::AtMostOnce, retain: false };
    lemma_subscribe_decode(sv);
    lemma_framed_decode(0x82, plain, be16(sv.packet_id as nat) + subscriptions_enc(sv.subscriptions), rest);
}

proof fn lemma_roundtrip_suback(sv: SubAckView, rest: Seq<u8>)
    requires
        suback_well_formed(sv),
    ensures
        spec_encode_packet(PacketView::SubAck(sv)) matches Ok(b) && spec_decode_packet(b + rest) == Ok::<
            (PacketView, nat),
            DecodeFailure,
        >((PacketView::SubAck(sv), b.len())),
{
    let plain = FixedHeader { packet_type: 9, dup: false, qos: QoS::AtMostOnce, retain: false };
    lemma_suback_decode(sv);
    lemma_framed_decode(0x90, plain, be16(sv.packet_id as nat) + return_codes_enc(sv.return_codes), rest);
}

proof fn lemma_roundtrip_unsubscribe(u: UnsubscribeView, rest: Seq<u8>)
    requires
        unsubscribe_well_formed(u),
    ensures
        spec_encode_packet(PacketView::Unsubscribe(u)) matches Ok(b) && spec_decode_packet(b + rest) == Ok::<
            (PacketView, nat),
            DecodeFailure,
        >((PacketView::Unsubscribe(u), b.len())),
{
    let plain = FixedHeader { packet_type: 10, dup: false, qos: QoS::AtMostOnce, retain: false };
    lemma_unsubscribe_decode(u);
    lemma_framed_decode(0xA2, plain, be16(u.packet_id as nat) + filters_enc(u.topic_filters), rest);
}

/// The packets that carry only a packet identifier.
proof fn lemma_roundtrip_ack(p: PacketView, rest: Seq<u8>)
    requires
        packet_well_formed(p),
        p is PubAck || p is PubRec || p is PubRel || p is PubComp || p is UnsubAck,
    ensures
        spec_encode_packet(p) matches Ok(b) && spec_decode_packet(b + rest) == Ok::<
            (PacketView, nat),
            DecodeFailure,
        >((p, b.len())),
{
    let plain = FixedHeader { packet_type: 0, dup: false, qos: QoS::AtMostOnce, retain: false };
    match p {
        PacketView::PubAck(a) => {
            lemma_id_packet_framed(0x40, a.packet_id);
            lemma_ack_id_decode(a.packet_id, "PUBACK payload"@);
            lemma_framed_decode(0x40, FixedHeader { packet_type: 4, ..plain }, be16(a.packet_id as nat), rest);
        },
        PacketView::PubRec(a) => {
            lemma_id_packet_framed(0x50, a.packet_id);
            lemma_ack_id_decode(a.packet_id, "PUBREC payload"@);
            lemma_framed_decode(0x50, FixedHeader { packet_type: 5, ..plain }, be16(a.packet_id as nat), rest);
        },
        PacketView::PubRel(a) => {
            lemma_id_packet_framed(0x62, a.packet_id);
            lemma_ack_id_decode(a.packet_id, "PUBREL payload"@);
            lemma_framed_decode(0x62, FixedHeader { packet_type: 6, ..plain }, be16(a.packet_id as nat), rest);
        },
        PacketView::PubComp(a) => {
            lemma_id_packet_framed(0x70, a.packet_id);
            lemma_ack_id_decode(a.packet_id, "PUBCOMP payload"@);
            lemma_framed_decode(0x70, FixedHeader { packet_type: 7, ..plain }, be16(a.packet_id as nat), rest);
        },
        PacketView::UnsubAck(a) => {
            lemma_id_packet_framed(0xB0, a.packet_id);
            lemma_ack_id_decode(a.packet_id, "UNSUBACK payload"@);
            lemma_framed_decode(0xB0, FixedHeader { packet_type: 11, ..plain }, be16(a.packet_id as nat), rest);
        },
        _ => {},
    }
}

/// The packets without a body.
proof fn lemma_roundtrip_empty(p: PacketView, rest: Seq<u8>)
    requires
        p is PingReq || p is PingResp || p is Disconnect,
    ensures
        spec_encode_packet(p) matches Ok(b) && spec_decode_packet(b + rest) == Ok::<
            (PacketView, nat),
            DecodeFailure,
        >((p, b.len())),
{
    let plain = FixedHeader { packet_type: 0, dup: false, qos: QoS::AtMostOnce, retain: false };
    match p {
        PacketView::PingReq => {
            lemma_empty_packet_framed(0xC0);
            lemma_framed_decode(0xC0, FixedHeader { packet_type: 12, ..plain }, Seq::<u8>::empty(), rest);
        },
        PacketView::PingResp => {
            lemma_empty_packet_framed(0xD0);
            lemma_framed_decode(0xD0, FixedHeader { packet_type: 13, ..plain }, Seq::<u8>::empty(), rest);
        },
        PacketView::Disconnect => {
            lemma_empty_packet_framed(0xE0);
            lemma_framed_decode(0xE0, FixedHeader { packet_type: 14, ..plain }, Seq::<u8>::empty(), rest);
        },
        _ => {},
    }
}

/// Decoding the encoding of a well-formed packet, followed by any bytes,
/// gives back the packet and the length of its encoding.
pub proof fn lemma_encode_decode_roundtrip(p: PacketView, rest: Seq<u8>)
    requires
        packet_well_formed(p),
    ensures
        spec_encode_packet(p) matches Ok(b) && spec_decode_packet(b + rest) == Ok::<
            (PacketView, nat),
            DecodeFailure,
        >((p, b.len())),
{
    match p {
        PacketView::Connect(c) => lemma_roundtrip_connect(c, rest),
        PacketView::ConnAck(c) => lemma_roundtrip_connack(c, rest),
        PacketView::Publish(pv) => lemma_roundtrip_publish(pv, rest),
        PacketView::Subscribe(sv) => lemma_roundtrip_subscribe(sv, rest),
        PacketView::SubAck(sv) => lemma_roundtrip_suback(sv, rest),
        PacketView::Unsubscribe(u) => lemma_roundtrip_unsubscribe(u, rest),
        PacketView::PingReq | PacketView::PingResp | PacketView::Disconnect => lemma_roundtrip_empty(p, rest),
        _ => lemma_roundtrip_ack(p, rest),
    }
}

} // verus!
