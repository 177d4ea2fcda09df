//! Framing of MQTT packets over a byte stream: bytes accumulate in a buffer
//! until a whole packet is there, which is then taken off and decoded.

use vstd::prelude::*;

use bytes::BytesMut;

use crate::buf::{
    bytes_mut_as_slice, bytes_mut_put_slice, bytes_mut_reserve, bytes_mut_seq, bytes_mut_split_to,
};
use crate::codec::decode::{decode_packet, spec_decode_packet};
use crate::codec::encode::{encode_packet, spec_encode_packet};
use crate::codec::error::{DecodeError, EncodeError};
use crate::codec::packet::{Packet, PacketView};
use crate::codec::roundtrip::{lemma_encode_decode_roundtrip, packet_well_formed};
use crate::codec::varint::{pow128, varint_from, varint_read, VarintRead};

verus! {

#[verifier::external_type_specification]
#[verifier::external_body]
pub struct ExIoError(std::io::Error);

/// Maximum MQTT packet size (256 MB, as MQTT allows).
pub const MAX_PACKET_SIZE: usize = 256 * 1024 * 1024;

/// Default maximum packet size (1 MB).
pub const DEFAULT_MAX_PACKET_SIZE: usize = 1024 * 1024;

/// The low seven bits of a remaining-length byte.
pub open spec fn group7(b: u8) -> nat {
    if b >= 128 {
        (b - 128) as nat
    } else {
        b as nat
    }
}

/// The value of the first `k` remaining-length bytes of `s`, least
/// significant group first.
pub open spec fn length_value_upto(s: Seq<u8>, k: nat) -> nat
    decreases k,
{
    if k == 0 {
        0
    } else {
        length_value_upto(s, (k - 1) as nat) + group7(s[k - 1]) * pow128((k - 1) as nat)
    }
}

/// The remaining length that the codec reads from its length bytes: the
/// groups of the first four of them.
pub open spec fn length_value(s: Seq<u8>) -> nat {
    length_value_upto(s, if s.len() < 4 { s.len() } else { 4 })
}

/// The codec's decoding state, as plain values.
pub struct FrameState {
    /// Remaining-length bytes read so far.
    pub length_bytes: Seq<u8>,
    /// The remaining length, once its last byte was read.
    pub length: Option<nat>,
    /// The first byte of the packet, once read.
    pub header: Option<u8>,
}

/// The state between packets.
pub open spec fn frame_start() -> FrameState {
    FrameState { length_bytes: Seq::empty(), length: None, header: None }
}

/// What reading remaining-length bytes from `buf` gives, from the bytes
/// read so far on; `start` is how many had been read when the call began.
pub enum LengthScan {
    /// More bytes are needed; the bytes read so far.
    More(Seq<u8>),
    /// The last length byte was read: all length bytes, and the length.
    Length(Seq<u8>, nat),
    /// The length exceeds the maximum packet size.
    TooLarge(nat),
    /// A fifth byte with its continuation bit set.
    Malformed,
}

/// Reading remaining-length bytes: the byte after the header and the bytes
/// read so far is read while it is in `buf` (and `start` plus the count read
/// is below the buffer's length); a byte without its continuation bit ends
/// the length, and a fifth byte with it is malformed.
pub open spec fn scan_length(bytes: Seq<u8>, start: nat, buf: Seq<u8>, max: nat) -> LengthScan
    decreases buf.len() - bytes.len(),
{
    if start + bytes.len() < buf.len() && 1 + bytes.len() < buf.len() {
        let b = buf[1 + bytes.len() as int];
        let read = bytes.push(b);
        if b < 128 {
            let v = length_value(read);
            if v > max {
                LengthScan::TooLarge(v)
            } else {
                LengthScan::Length(read, v)
            }
        } else if read.len() > 4 {
            LengthScan::Malformed
        } else {
            scan_length(read, start, buf, max)
        }
    } else {
        LengthScan::More(bytes)
    }
}

/// What one decoding call finds.
pub enum FrameOutcome {
    /// No whole packet yet.
    NoPacket,
    /// A whole packet: its bytes.
    Frame(Seq<u8>),
    /// The remaining length exceeds the maximum packet size.
    TooLarge(nat),
    /// The remaining length is malformed.
    Malformed,
}

/// One decoding call on buffer `buf` from state `st` with maximum packet
/// size `max`: the new state, what was found, and how many bytes are taken
/// off the buffer. The header byte is noted, the remaining length read as
/// far as the buffer goes, and a packet whose bytes are all there is taken
/// off; a length error resets the state.
pub open spec fn frame_step(st: FrameState, max: nat, buf: Seq<u8>) -> (FrameState, FrameOutcome, nat) {
    if buf.len() == 0 {
        (st, FrameOutcome::NoPacket, 0)
    } else {
        let header = if st.header is None {
            Some(buf[0])
        } else {
            st.header
        };
        let scanned = match st.length {
            Some(n) => LengthScan::Length(st.length_bytes, n),
            None => scan_length(st.length_bytes, st.length_bytes.len(), buf, max),
        };
        match scanned {
            LengthScan::More(bytes) => (
                FrameState { length_bytes: bytes, length: None, header },
                FrameOutcome::NoPacket,
                0,
            ),
            LengthScan::TooLarge(v) => (frame_start(), FrameOutcome::TooLarge(v), 0),
            LengthScan::Malformed => (frame_start(), FrameOutcome::Malformed, 0),
            LengthScan::Length(bytes, n) => {
                let total = 1 + bytes.len() + n;
                if buf.len() < total {
                    (
                        FrameState { length_bytes: bytes, length: Some(n), header },
                        FrameOutcome::NoPacket,
                        0,
                    )
                } else {
                    (frame_start(), FrameOutcome::Frame(buf.take(total as int)), total)
                }
            },
        }
    }
}

/// Decoding state for the remaining length of the packet being read.
#[derive(Debug)]
struct DecodeState {
    /// Remaining-length bytes read so far.
    remaining_length_bytes: Vec<u8>,
    /// The remaining length, once known.
    remaining_length: Option<usize>,
    /// The fixed header byte, once read.
    fixed_header: Option<u8>,
}

impl DecodeState {
    /// The state between packets.
    fn new() -> (r: Self)
        ensures
            r.remaining_length_bytes@.len() == 0,
            r.remaining_length is None,
            r.fixed_header is None,
    {
        DecodeState { remaining_length_bytes: Vec::new(), remaining_length: None, fixed_header: None }
    }

    fn reset(&mut self)
        ensures
            final(self).remaining_length_bytes@.len() == 0,
            final(self).remaining_length is None,
            final(self).fixed_header is None,
    {
        self.remaining_length_bytes.clear();
        self.remaining_length = None;
        self.fixed_header = None;
    }
}

/// MQTT codec: frames packets over a byte stream, accumulating bytes until a
/// whole packet is available.
#[derive(Debug)]
pub struct MqttCodec {
    /// Maximum allowed packet size.
    max_packet_size: usize,
    /// State for decoding the remaining length.
    decode_state: DecodeState,
}

/// Errors of the codec.
#[derive(Debug)]
pub enum CodecError {
    /// The packet exceeds the maximum packet size.
    PacketTooLarge { size: usize, max: usize },
    /// Malformed remaining length encoding.
    MalformedRemainingLength,
    /// The packet could not be decoded.
    Decode(DecodeError),
    /// The packet could not be encoded.
    Encode(EncodeError),
    /// An I/O error of the stream.
    Io(std::io::Error),
}

impl MqttCodec {
    /// The decoding state.
    pub closed spec fn frame(&self) -> FrameState {
        FrameState {
            length_bytes: self.decode_state.remaining_length_bytes@,
            length: match self.decode_state.remaining_length {
                Some(n) => Some(n as nat),
                None => None,
            },
            header: self.decode_state.fixed_header,
        }
    }

    /// The maximum packet size.
    pub closed spec fn max_size(&self) -> nat {
        self.max_packet_size as nat
    }

    /// The codec's invariant: the limit is at most `MAX_PACKET_SIZE`, at most
    /// four length bytes are pending before the length is known (five after),
    /// and a known length is within the limit.
    pub closed spec fn wf(&self) -> bool {
        &&& self.max_packet_size <= MAX_PACKET_SIZE
        &&& self.decode_state.remaining_length_bytes@.len() <= 5
        &&& self.decode_state.remaining_length is None
            ==> self.decode_state.remaining_length_bytes@.len() <= 4
        &&& self.decode_state.remaining_length matches Some(n) ==> n <= self.max_packet_size
    }

    /// A codec with the default maximum packet size.
    pub fn new() -> (r: Self)
        ensures
            r.wf(),
            r.frame() == frame_start(),
            r.max_size() == DEFAULT_MAX_PACKET_SIZE,
    {
        let r = MqttCodec { max_packet_size: DEFAULT_MAX_PACKET_SIZE, decode_state: DecodeState::new() };
        assert(r.frame().length_bytes =~= Seq::<u8>::empty());
        r
    }

    /// A codec with the given maximum packet size, capped at
    /// `MAX_PACKET_SIZE`.
    pub fn with_max_packet_size(max_packet_size: usize) -> (r: Self)
        ensures
            r.wf(),
            r.frame() == frame_start(),
            r.max_size() == if max_packet_size < MAX_PACKET_SIZE {
                max_packet_size
            } else {
                MAX_PACKET_SIZE
            },
    {
        let max = if max_packet_size < MAX_PACKET_SIZE { max_packet_size } else { MAX_PACKET_SIZE };
        let r = MqttCodec { max_packet_size: max, decode_state: DecodeState::new() };
        assert(r.frame().length_bytes =~= Seq::<u8>::empty());
        r
    }

    /// Decode a packet from the buffer: `Ok(Some(packet))` when a whole
    /// packet was there (its bytes are taken off the buffer), `Ok(None)` when
    /// more data is needed, or an error.
    pub fn decode(&mut self, buf: &mut BytesMut) -> (r: Result<Option<Packet>, CodecError>)
        requires
            old(self).wf(),
        ensures
            final(self).wf(),
            final(self).max_size() == old(self).max_size(),
            ({
                let (st, out, used) = frame_step(old(self).frame(), old(self).max_size(), bytes_mut_seq(*old(buf)));
                &&& final(self).frame() == st
                &&& bytes_mut_seq(*final(buf)) == bytes_mut_seq(*old(buf)).skip(used as int)
                &&& match out {
                    FrameOutcome::NoPacket => r matches Ok(None),
                    FrameOutcome::TooLarge(v) => r matches Err(CodecError::PacketTooLarge { size, max })
                        && size == v && max == old(self).max_size(),
                    FrameOutcome::Malformed => r matches Err(CodecError::MalformedRemainingLength),
                    FrameOutcome::Frame(f) => match spec_decode_packet(f) {
                        Ok((p, _)) => r matches Ok(Some(x)) && x@ == p,
                        Err(e) => r matches Err(CodecError::Decode(x)) && x@ == e,
                    },
                }
            }),
    {
        let ghost b = bytes_mut_seq(*buf);
        let ghost max = self.max_packet_size as nat;
        let data = bytes_mut_as_slice(buf);
        // Nothing to read yet
        if data.len() == 0 {
            return Ok(None);
        }
        // Read the fixed header if not done already
        if self.decode_state.fixed_header.is_none() {
            self.decode_state.fixed_header = Some(data[0]);
        }
        let ghost header = self.decode_state.fixed_header;
        // Read the remaining length
        if self.decode_state.remaining_length.is_none() {
            let ghost b0 = self.decode_state.remaining_length_bytes@;
            let start_pos = 1 + self.decode_state.remaining_length_bytes.len();
            while start_pos + self.decode_state.remaining_length_bytes.len() - 1 < data.len()
                invariant_except_break
                    data@ == b,
                    b == bytes_mut_seq(*old(buf)),
                    bytes_mut_seq(*buf) == b,
                    self.max_packet_size == old(self).max_packet_size,
                    old(self).frame().length_bytes == b0,
                    old(self).frame().length is None,
                    header == if old(self).frame().header is None {
                        Some(b[0])
                    } else {
                        old(self).frame().header
                    },
                    b.len() > 0,
                    max == self.max_packet_size,
                    self.max_packet_size <= MAX_PACKET_SIZE,
                    start_pos == 1 + b0.len(),
                    b0.len() <= 4,
                    self.decode_state.remaining_length is None,
                    self.decode_state.fixed_header == header,
                    self.decode_state.remaining_length_bytes@.len() <= 4,
                    scan_length(self.decode_state.remaining_length_bytes@, b0.len(), b, max) == scan_length(
                        b0,
                        b0.len(),
                        b,
                        max,
                    ),
                ensures
                    data@ == b,
                    b == bytes_mut_seq(*old(buf)),
                    bytes_mut_seq(*buf) == b,
                    self.max_packet_size == old(self).max_packet_size,
                    old(self).frame().length_bytes == b0,
                    old(self).frame().length is None,
                    header == if old(self).frame().header is None {
                        Some(b[0])
                    } else {
                        old(self).frame().header
                    },
                    max == self.max_packet_size,
                    self.max_packet_size <= MAX_PACKET_SIZE,
                    self.decode_state.fixed_header == header,
                    self.decode_state.remaining_length is None ==> {
                        &&& self.decode_state.remaining_length_bytes@.len() <= 4
                        &&& scan_length(b0, b0.len(), b, max) == LengthScan::More(
                            self.decode_state.remaining_length_bytes@,
                        )
                    },
                    self.decode_state.remaining_length matches Some(n) ==> {
                        &&& n <= max
                        &&& self.decode_state.remaining_length_bytes@.len() <= 5
                        &&& scan_length(b0, b0.len(), b, max) == LengthScan::Length(
                            self.decode_state.remaining_length_bytes@,
                            n as nat,
                        )
                    },
                decreases b.len() - self.decode_state.remaining_length_bytes@.len(),
            {
                let idx = 1 + self.decode_state.remaining_length_bytes.len();
                if idx >= data.len() {
                    // More data is needed
                    return Ok(None);
                }
                let byte = data[idx];
                let ghost before = self.decode_state.remaining_length_bytes@;
                self.decode_state.remaining_length_bytes.push(byte);
                // The last length byte has its continuation bit clear
                if byte & 0x80 == 0 {
                    proof {
                        assert(byte & 0x80 == 0 ==> byte < 128) by (bit_vector);
                    }
                    let value = length_bytes_value(&self.decode_state.remaining_length_bytes);
                    let remaining_length = value as usize;
                    if remaining_length > self.max_packet_size {
                        self.decode_state.reset();
                        proof {
                            assert(self.frame().length_bytes =~= Seq::<u8>::empty());
                        }
                        return Err(CodecError::PacketTooLarge { size: remaining_length, max: self.max_packet_size });
                    }
                    self.decode_state.remaining_length = Some(remaining_length);
                    break;
                }
                proof {
                    assert(byte & 0x80 != 0 ==> byte >= 128) by (bit_vector);
                }
                // Too many remaining length bytes
                if self.decode_state.remaining_length_bytes.len() > 4 {
                    self.decode_state.reset();
                    proof {
                        assert(self.frame().length_bytes =~= Seq::<u8>::empty());
                    }
                    return Err(CodecError::MalformedRemainingLength);
                }
            }
        }
        // Without the remaining length, more data is needed
        let remaining_length = match self.decode_state.remaining_length {
            Some(n) => n,
            None => {
                return Ok(None);
            },
        };
        // The whole packet's size
        let header_size = 1 + self.decode_state.remaining_length_bytes.len();
        let total_size = header_size + remaining_length;
        if data.len() < total_size {
            return Ok(None);
        }
        // Take the packet's bytes off the buffer
        let packet_bytes = bytes_mut_split_to(buf, total_size);
        // Reset the decoding state for the next packet
        self.decode_state.reset();
        proof {
            assert(self.frame().length_bytes =~= Seq::<u8>::empty());
        }
        match decode_packet(bytes_mut_as_slice(&packet_bytes)) {
            Ok((packet, _)) => Ok(Some(packet)),
            Err(e) => Err(CodecError::Decode(e)),
        }
    }

    /// Encode a packet into the buffer; a packet larger than the maximum
    /// packet size is refused and the buffer left as it was.
    pub fn encode(&mut self, packet: &Packet, buf: &mut BytesMut) -> (r: Result<(), CodecError>)
        requires
            old(self).wf(),
            spec_encode_packet(packet@) matches Ok(e) ==> (e.len() <= old(self).max_size() ==> bytes_mut_seq(
                *old(buf),
            ).len() + e.len() <= isize::MAX),
        ensures
            *final(self) == *old(self),
            match spec_encode_packet(packet@) {
                Err(e) => r matches Err(CodecError::Encode(x)) && x@ == e && bytes_mut_seq(*final(buf))
                    == bytes_mut_seq(*old(buf)),
                Ok(e) => if e.len() > old(self).max_size() {
                    &&& r matches Err(CodecError::PacketTooLarge { size, max }) && size == e.len() && max
                        == old(self).max_size()
                    &&& bytes_mut_seq(*final(buf)) == bytes_mut_seq(*old(buf))
                } else {
                    &&& r is Ok
                    &&& bytes_mut_seq(*final(buf)) == bytes_mut_seq(*old(buf)) + e
                },
            },
    {
        let encoded = match encode_packet(packet) {
            Ok(e) => e,
            Err(e) => {
                return Err(CodecError::Encode(e));
            },
        };
        let bytes = bytes_mut_as_slice(&encoded);
        // Check the size limit
        if bytes.len() > self.max_packet_size {
            return Err(CodecError::PacketTooLarge { size: bytes.len(), max: self.max_packet_size });
        }
        bytes_mut_reserve(buf, bytes.len());
        bytes_mut_put_slice(buf, bytes);
        Ok(())
    }

    /// The maximum packet size.
    pub fn max_packet_size(&self) -> (r: usize)
        ensures
            r == self.max_size(),
    {
        self.max_packet_size
    }
}

impl Default for MqttCodec {
    fn default() -> (r: Self)
        ensures
            r.wf(),
            r.frame() == frame_start(),
            r.max_size() == DEFAULT_MAX_PACKET_SIZE,
    {
        Self::new()
    }
}

/// The groups of the first `k` bytes stay below `128^k`.
proof fn lemma_length_value_bound(s: Seq<u8>, k: nat)
    requires
        k <= s.len(),
    ensures
        length_value_upto(s, k) < pow128(k),
    decreases k,
{
    if k > 0 {
        lemma_length_value_bound(s, (k - 1) as nat);
        let p = pow128((k - 1) as nat);
        let g = group7(s[k - 1]);
        assert(g <= 127);
        assert(g * p <= 127 * p) by (nonlinear_arith)
            requires
                g <= 127,
        ;
    }
}

/// `length_value_upto` reads only the first `k` bytes.
proof fn lemma_length_value_prefix(s: Seq<u8>, t: Seq<u8>, k: nat)
    requires
        k <= s.len(),
        k <= t.len(),
        forall|j: int| 0 <= j < k ==> s[j] == t[j],
    ensures
        length_value_upto(s, k) == length_value_upto(t, k),
    decreases k,
{
    if k > 0 {
        lemma_length_value_prefix(s, t, (k - 1) as nat);
    }
}

/// The remaining length of the length bytes `bytes` (1 to 5 of them).
fn length_bytes_value(bytes: &Vec<u8>) -> (r: u32)
    requires
        1 <= bytes@.len() <= 5,
    ensures
        r == length_value(bytes@),
{
    let mut multiplier: u32 = 1;
    let mut value: u32 = 0;
    let mut i: usize = 0;
    proof {
        assert(pow128(0) == 1 && pow128(1) == 128 && pow128(2) == 16384 && pow128(3) == 2097152 && pow128(4)
            == 268435456) by {
            reveal_with_fuel(pow128, 5);
        }
    }
    while i < bytes.len()
        invariant_except_break
            i <= 4,
            i <= bytes@.len(),
            multiplier == pow128(i as nat),
            value == length_value_upto(bytes@, i as nat),
            pow128(0) == 1 && pow128(1) == 128 && pow128(2) == 16384 && pow128(3) == 2097152 && pow128(4)
                == 268435456,
            i < 4,
        ensures
            value == length_value(bytes@),
        decreases bytes@.len() - i,
    {
        let b = bytes[i];
        proof {
            assert(b as u32 & 0x7F == if b >= 128 { (b - 128) as u32 } else { b as u32 }) by (bit_vector);
            lemma_length_value_bound(bytes@, (i + 1) as nat);
            assert(length_value_upto(bytes@, (i + 1) as nat) == value + group7(b) * multiplier);
        }
        value = value + (b as u32 & 0x7F) * multiplier;
        multiplier = multiplier * 128;
        i = i + 1;
        if multiplier > 128 * 128 * 128 {
            // Four bytes processed already
            break;
        }
    }
    value
}

/// The remaining length that a packet's first bytes announce: its body's
/// length.
pub open spec fn frame_body_len(b: Seq<u8>) -> nat {
    match varint_read(b.skip(1)) {
        VarintRead::Value(v, _) => v,
        _ => 0,
    }
}

/// What reading a variable-length integer gives, in the terms of the codec:
/// the bytes before the last have their continuation bit set, and the value
/// is that of the groups.
proof fn lemma_varint_groups(c: Seq<u8>, i: nat)
    requires
        varint_from(c, i) is Value,
    ensures
        ({
            let v = varint_from(c, i)->Value_0;
            let n = varint_from(c, i)->Value_1;
            &&& i < n <= 4
            &&& n <= c.len()
            &&& c[n - 1] < 128
            &&& forall|j: int| i <= j < n - 1 ==> #[trigger] c[j] >= 128
            &&& v + length_value_upto(c, i) == length_value_upto(c, n)
        }),
    decreases 4 - i,
{
    if c[i as int] >= 128 {
        lemma_varint_groups(c, i + 1);
        let n = varint_from(c, i)->Value_1;
        lemma_length_sum_step(c, i, n);
    } else {
        assert(length_value_upto(c, i + 1) == length_value_upto(c, i) + group7(c[i as int]) * pow128(i));
    }
}

proof fn lemma_length_sum_step(c: Seq<u8>, i: nat, n: nat)
    requires
        i < c.len(),
        c[i as int] >= 128,
    ensures
        length_value_upto(c, i + 1) == length_value_upto(c, i) + (c[i as int] - 128) * pow128(i),
{
}

/// Reading the length bytes of a buffer whose bytes after the first begin
/// with a variable-length integer, from `k` bytes read on.
proof fn lemma_scan_varint(buf: Seq<u8>, k: nat, max: nat)
    requires
        buf.len() > 0,
        varint_read(buf.skip(1)) is Value,
        k < varint_read(buf.skip(1))->Value_1,
    ensures
        ({
            let c = buf.skip(1);
            let v = varint_read(c)->Value_0;
            let n = varint_read(c)->Value_1;
            scan_length(c.take(k as int), 0, buf, max) == if v > max {
                LengthScan::TooLarge(v)
            } else {
                LengthScan::Length(c.take(n as int), v)
            }
        }),
    decreases 4 - k,
{
    let c = buf.skip(1);
    let n = varint_read(c)->Value_1;
    lemma_varint_groups(c, 0);
    let bytes = c.take(k as int);
    assert(buf[1 + k as int] == c[k as int]);
    let read = bytes.push(c[k as int]);
    assert(read =~= c.take(k + 1 as int));
    if c[k as int] < 128 {
        assert(k + 1 == n);
        lemma_length_value_prefix(read, c, n);
        assert(length_value_upto(c, 0) == 0);
    } else {
        assert(k < n - 1);
        lemma_scan_varint(buf, k + 1, max);
    }
}

/// `b` is a frame: a header byte, a variable-length integer, and as many
/// bytes as it says.
pub open spec fn is_frame(b: Seq<u8>) -> bool {
    &&& varint_read(b.skip(1)) is Value
    &&& b.len() == 1 + varint_read(b.skip(1))->Value_1 + varint_read(b.skip(1))->Value_0
}

/// A short frame: its length fits in the second byte.
proof fn lemma_short_frame(b: Seq<u8>)
    requires
        b.len() >= 2,
        b[1] < 128,
        b.len() == 2 + b[1],
    ensures
        is_frame(b),
{
    assert(b.skip(1)[0] == b[1]);
    assert(pow128(0) == 1);
}

/// What `framed` gives is a frame.
proof fn lemma_framed_is_frame(header: u8, body: Seq<u8>)
    requires
        crate::codec::encode::framed(header, body) is Ok,
    ensures
        is_frame(crate::codec::encode::framed(header, body)->Ok_0),
{
    let b = crate::codec::encode::framed(header, body)->Ok_0;
    crate::codec::varint::lemma_varint_roundtrip(body.len(), body);
    assert(b.skip(1) =~= crate::codec::varint::varint_bytes(body.len()) + body);
}

/// The bytes of an encoded packet are a frame: a header byte, the body's
/// length as a variable-length integer, and the body.
proof fn lemma_encoding_is_frame(p: PacketView)
    requires
        spec_encode_packet(p) is Ok,
    ensures
        is_frame(spec_encode_packet(p)->Ok_0),
{
    let b = spec_encode_packet(p)->Ok_0;
    match p {
        PacketView::Connect(c) => lemma_framed_is_frame(0x10, crate::codec::encode::connect_body(c)),
        PacketView::Publish(pv) => lemma_framed_is_frame(
            crate::codec::types::fixed_header_byte(
                crate::codec::types::FixedHeader {
                    packet_type: 3,
                    dup: pv.dup,
                    qos: pv.qos,
                    retain: pv.retain,
                },
            ),
            crate::codec::encode::publish_body(pv),
        ),
        PacketView::Subscribe(sv) => lemma_framed_is_frame(
            0x82,
            crate::codec::encode::be16(sv.packet_id as nat) + crate::codec::encode::subscriptions_enc(
                sv.subscriptions,
            ),
        ),
        PacketView::SubAck(sv) => lemma_framed_is_frame(
            0x90,
            crate::codec::encode::be16(sv.packet_id as nat) + crate::codec::encode::return_codes_enc(
                sv.return_codes,
            ),
        ),
        PacketView::Unsubscribe(u) => lemma_framed_is_frame(
            0xA2,
            crate::codec::encode::be16(u.packet_id as nat) + crate::codec::encode::filters_enc(u.topic_filters),
        ),
        PacketView::ConnAck(_) => lemma_short_frame(b),
        PacketView::PubAck(a) => lemma_id_frame(0x40, a.packet_id),
        PacketView::PubRec(a) => lemma_id_frame(0x50, a.packet_id),
        PacketView::PubRel(a) => lemma_id_frame(0x62, a.packet_id),
        PacketView::PubComp(a) => lemma_id_frame(0x70, a.packet_id),
        PacketView::UnsubAck(a) => lemma_id_frame(0xB0, a.packet_id),
        PacketView::PingReq => lemma_short_frame(seq![0xC0u8, 0x00u8]),
        PacketView::PingResp => lemma_short_frame(seq![0xD0u8, 0x00u8]),
        PacketView::Disconnect => lemma_short_frame(seq![0xE0u8, 0x00u8]),
    }
}

/// A packet that carries only a packet identifier is a frame.
proof fn lemma_id_frame(header: u8, id: u16)
    ensures
        is_frame(crate::codec::encode::id_packet(header, id)),
{
    lemma_short_frame(crate::codec::encode::id_packet(header, id));
}

/// Framing a well-formed packet: a codec between packets, reading a buffer
/// that begins with the packet's encoding (whose body is within its limit),
/// takes exactly that encoding off the buffer and decodes it to the packet,
/// whatever bytes follow.
pub proof fn lemma_frame_roundtrip(p: PacketView, rest: Seq<u8>, max: nat)
    requires
        packet_well_formed(p),
        spec_encode_packet(p) matches Ok(b) && frame_body_len(b) <= max,
    ensures
        ({
            let b = spec_encode_packet(p)->Ok_0;
            &&& frame_step(frame_start(), max, b + rest) == (frame_start(), FrameOutcome::Frame(b), b.len())
            &&& spec_decode_packet(b) == Ok::<(PacketView, nat), crate::codec::error::DecodeFailure>(
                (p, b.len()),
            )
        }),
{
    let b = spec_encode_packet(p)->Ok_0;
    let buf = b + rest;
    lemma_encoding_is_frame(p);
    lemma_encode_decode_roundtrip(p, Seq::empty());
    assert(b + Seq::<u8>::empty() =~= b);
    let c = b.skip(1);
    let n = varint_read(c)->Value_1;
    let v = varint_read(c)->Value_0;
    lemma_varint_groups(c, 0);
    // The length bytes read from the whole buffer are those of `b`
    assert(buf.skip(1) =~= c + rest);
    assert(varint_from(buf.skip(1), 0) == varint_from(c, 0)) by {
        lemma_varint_extend(c, rest, 0);
    }
    lemma_scan_varint(buf, 0, max);
    assert(buf.skip(1).take(0) =~= Seq::<u8>::empty());
    assert(buf.skip(1).take(n as int) =~= c.take(n as int));
    assert(buf.take(b.len() as int) =~= b);
}

/// Bytes after a complete variable-length integer do not change it.
proof fn lemma_varint_extend(c: Seq<u8>, rest: Seq<u8>, i: nat)
    requires
        varint_from(c, i) is Value,
    ensures
        varint_from(c + rest, i) == varint_from(c, i),
    decreases 4 - i,
{
    assert((c + rest)[i as int] == c[i as int]);
    if c[i as int] >= 128 {
        lemma_varint_extend(c, rest, i + 1);
    }
}

} // verus!
