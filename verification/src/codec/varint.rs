//! Variable-length integer encoding per MQTT 3.1.1 §2.2.3.
//!
//! Each byte carries 7 bits of the value, least significant group first; the
//! high bit says that another byte follows. At most 4 bytes are allowed.

use vstd::prelude::*;

use crate::codec::error::DecodeError;

verus! {

/// Maximum bytes of a variable length integer (4 bytes = 268,435,455 max).
pub const MAX_VARINT_BYTES: usize = 4;

/// Largest value that fits in four bytes.
pub const MAX_VARINT_VALUE: u32 = 268_435_455;

/// `128` to the power `n`.
pub open spec fn pow128(n: nat) -> nat
    decreases n,
{
    if n == 0 {
        1
    } else {
        128 * pow128((n - 1) as nat)
    }
}

/// What reading a variable-length integer from a byte sequence gives.
pub enum VarintRead {
    /// The value and the number of bytes it occupied.
    Value(nat, nat),
    /// The bytes ran out while a continuation bit was set.
    Incomplete,
    /// A fifth byte would be needed.
    Malformed,
}

/// Reading the variable-length integer that starts at index `i` of `b`,
/// where `i` counts the 7-bit groups already read.
pub open spec fn varint_from(b: Seq<u8>, i: nat) -> VarintRead
    decreases 4 - i,
{
    if i >= b.len() {
        VarintRead::Incomplete
    } else if i >= 4 {
        VarintRead::Malformed
    } else if b[i as int] < 128 {
        VarintRead::Value((b[i as int] * pow128(i)) as nat, i + 1)
    } else {
        match varint_from(b, i + 1) {
            VarintRead::Value(v, n) => VarintRead::Value(((b[i as int] - 128) * pow128(i) + v) as nat, n),
            other => other,
        }
    }
}

/// Reading a variable-length integer at the start of `b`.
pub open spec fn varint_read(b: Seq<u8>) -> VarintRead {
    varint_from(b, 0)
}

/// A variable-length integer read from `s` is read the same from any
/// prefix `p` of `s` that holds all its bytes; a shorter prefix runs out.
pub proof fn lemma_varint_prefix(s: Seq<u8>, p: Seq<u8>, i: nat)
    requires
        p.len() <= s.len(),
        forall|j: int| 0 <= j < p.len() ==> p[j] == s[j],
        varint_from(s, i) is Value,
    ensures
        p.len() >= varint_from(s, i)->1 ==> varint_from(p, i) == varint_from(s, i),
        p.len() < varint_from(s, i)->1 ==> varint_from(p, i) is Incomplete,
    decreases 4 - i,
{
    if i < s.len() && i < 4 && s[i as int] >= 128 {
        lemma_varint_prefix(s, p, i + 1);
    }
}

/// The encoding of `v`: 7-bit groups, least significant first, every byte but
/// the last with its high bit set.
pub open spec fn varint_bytes(v: nat) -> Seq<u8>
    decreases v,
{
    if v < 128 {
        seq![v as u8]
    } else {
        seq![((v % 128) + 128) as u8] + varint_bytes(v / 128)
    }
}

/// The length that `varint_len` reports for `v`.
pub open spec fn spec_varint_len(v: nat) -> nat {
    if v < 128 {
        1
    } else if v < 16_384 {
        2
    } else if v < 2_097_152 {
        3
    } else {
        4
    }
}

proof fn lemma_pow128_values()
    ensures
        pow128(0) == 1,
        pow128(1) == 128,
        pow128(2) == 16384,
        pow128(3) == 2097152,
        pow128(4) == 268435456,
{
    reveal_with_fuel(pow128, 5);
}

proof fn lemma_varint_from_bound(b: Seq<u8>, i: nat)
    requires
        i <= 4,
    ensures
        varint_from(b, i) matches VarintRead::Value(v, n) ==> i < n <= 4 && n <= b.len() && v
            + pow128(i) <= pow128(n),
    decreases 4 - i,
{
    lemma_pow128_values();
    lemma_pow128_pos(i);
    assert(pow128(i + 1) == 128 * pow128(i));
    if i < b.len() && i < 4 && b[i as int] >= 128 {
        lemma_varint_from_bound(b, i + 1);
        if let VarintRead::Value(v, n) = varint_from(b, i + 1) {
            let c = b[i as int] - 128;
            assert(c * pow128(i) <= 127 * pow128(i)) by (nonlinear_arith)
                requires
                    c <= 127,
                    c >= 0,
                    pow128(i) > 0,
            ;
            assert(varint_from(b, i) == VarintRead::Value((c * pow128(i) + v) as nat, n));
        }
    } else if i < b.len() && i < 4 {
        assert(b[i as int] * pow128(i) <= 127 * pow128(i)) by (nonlinear_arith)
            requires
                b[i as int] < 128,
                pow128(i) > 0,
        ;
    }
}

proof fn lemma_pow128_pos(n: nat)
    ensures
        pow128(n) > 0,
    decreases n,
{
    if n > 0 {
        lemma_pow128_pos((n - 1) as nat);
    }
}

proof fn lemma_pow128_mono(a: nat, b: nat)
    requires
        a <= b,
    ensures
        pow128(a) <= pow128(b),
    decreases b - a,
{
    if a < b {
        lemma_pow128_mono(a, (b - 1) as nat);
        lemma_pow128_pos((b - 1) as nat);
    }
}

/// Decode a variable-length integer from the start of `bytes`.
/// Returns the value and the number of bytes it occupied.
///
/// Per MQTT 3.1.1 §2.2.3: each byte holds 7 value bits and a continuation
/// bit; at most 4 bytes (value at most 268,435,455).
pub fn decode_variable_int(bytes: &[u8]) -> (r: Result<(u32, usize), DecodeError>)
    ensures
        match varint_read(bytes@) {
            VarintRead::Value(v, n) => r == Ok::<(u32, usize), DecodeError>((v as u32, n as usize)),
            VarintRead::Incomplete => r matches Err(DecodeError::Incomplete { needed, context })
                && needed == 1 && context@ == "variable integer"@,
            VarintRead::Malformed => r == Err::<(u32, usize), DecodeError>(
                DecodeError::MalformedVarint,
            ),
        },
        r matches Ok((v, n)) ==> 1 <= n <= 4 && v <= MAX_VARINT_VALUE,
        varint_read(bytes@) matches VarintRead::Value(v, n) ==> 1 <= n <= 4 && n <= bytes@.len()
            && v <= MAX_VARINT_VALUE,
{
    let mut multiplier: u32 = 1;
    let mut value: u32 = 0;
    let mut pos: usize = 0;
    proof {
        lemma_pow128_values();
        lemma_varint_from_bound(bytes@, 0);
    }
    loop
        invariant
            pos <= 4,
            pos <= bytes@.len(),
            multiplier as nat == pow128(pos as nat),
            value < multiplier,
            forall|j: int| 0 <= j < pos ==> bytes@[j] >= 128,
            pow128(0) == 1 && pow128(1) == 128 && pow128(2) == 16384 && pow128(3) == 2097152
                && pow128(4) == 268435456,
            // reading from `pos` on, shifted by the value already read, is the whole reading
            match varint_from(bytes@, pos as nat) {
                VarintRead::Value(v, n) => varint_read(bytes@) == VarintRead::Value(
                    (value + v) as nat,
                    n,
                ),
                other => varint_read(bytes@) == other,
            },
        decreases 4 - pos,
    {
        if pos >= bytes.len() {
            return Err(DecodeError::Incomplete { needed: 1, context: "variable integer" });
        }
        if pos >= MAX_VARINT_BYTES {
            return Err(DecodeError::MalformedVarint);
        }
        let byte = bytes[pos];
        assert(multiplier <= 2097152) by {
            assert(pos == 0 || pos == 1 || pos == 2 || pos == 3);
        }
        proof {
            lemma_varint_from_bound(bytes@, pos as nat);
            lemma_varint_from_bound(bytes@, (pos + 1) as nat);
        }
        if byte < 128 {
            assert(byte * multiplier < 128 * multiplier) by (nonlinear_arith)
                requires
                    byte < 128,
                    multiplier > 0,
            ;
            value = value + byte as u32 * multiplier;
            pos = pos + 1;
            return Ok((value, pos));
        }
        assert((byte - 128) * multiplier <= 127 * multiplier) by (nonlinear_arith)
            requires
                byte - 128 <= 127,
                byte >= 128,
        ;
        value = value + (byte - 128) as u32 * multiplier;
        pos = pos + 1;
        multiplier = multiplier * 128;
    }
}

proof fn lemma_varint_bytes_len(v: nat)
    ensures
        varint_bytes(v).len() >= 1,
        v < 268435456 ==> varint_bytes(v).len() == spec_varint_len(v),
        v < 268435456 ==> varint_bytes(v).len() <= 4,
    decreases v,
{
    if v >= 128 {
        lemma_varint_bytes_len(v / 128);
    }
}

proof fn lemma_varint_from_encoding(p: Seq<u8>, w: nat, rest: Seq<u8>)
    requires
        p.len() + varint_bytes(w).len() <= 4,
    ensures
        varint_from(p + varint_bytes(w) + rest, p.len()) == VarintRead::Value(
            w * pow128(p.len()),
            p.len() + varint_bytes(w).len(),
        ),
    decreases w,
{
    let i = p.len();
    let s = p + varint_bytes(w) + rest;
    lemma_varint_bytes_len(w);
    assert(s[i as int] == varint_bytes(w)[0]);
    if w >= 128 {
        let b = ((w % 128) + 128) as u8;
        let p2 = p.push(b);
        lemma_varint_bytes_len(w / 128);
        assert(p + varint_bytes(w) + rest =~= p2 + varint_bytes(w / 128) + rest);
        lemma_varint_from_encoding(p2, w / 128, rest);
        assert(pow128(i + 1) == 128 * pow128(i));
        assert((w % 128) * pow128(i) + (w / 128) * (128 * pow128(i)) == w * pow128(i))
            by (nonlinear_arith);
    }
}

/// The shape of an encoded length: one byte below 128, two below 16,384,
/// three below 2,097,152, four up to 268,435,455; every byte but the last
/// has its continuation bit set, the last has it clear, and each byte's low
/// seven bits are the next group of the value, least significant first.
pub proof fn lemma_varint_shape(v: nat)
    requires
        v <= MAX_VARINT_VALUE,
    ensures
        varint_bytes(v).len() == spec_varint_len(v),
        forall|i: int| 0 <= i < varint_bytes(v).len() - 1 ==> #[trigger] varint_bytes(v)[i] >= 128,
        varint_bytes(v).last() < 128,
        varint_bytes(v)[0] % 128 == v % 128,
        v >= 128 ==> varint_bytes(v).drop_first() == varint_bytes(v / 128),
{
    lemma_varint_bytes_len(v);
    lemma_varint_continuation(v);
}

/// Every byte of an encoding but the last has its high bit set.
proof fn lemma_varint_continuation(v: nat)
    ensures
        forall|i: int| 0 <= i < varint_bytes(v).len() - 1 ==> #[trigger] varint_bytes(v)[i] >= 128,
        varint_bytes(v).last() < 128,
        varint_bytes(v)[0] % 128 == v % 128,
        v >= 128 ==> varint_bytes(v).drop_first() == varint_bytes(v / 128),
    decreases v,
{
    if v >= 128 {
        lemma_varint_continuation(v / 128);
        lemma_varint_bytes_len(v / 128);
        let b = varint_bytes(v);
        let t = varint_bytes(v / 128);
        assert(b.drop_first() =~= t);
        assert forall|i: int| 0 <= i < b.len() - 1 implies #[trigger] b[i] >= 128 by {
            if i > 0 {
                assert(b[i] == t[i - 1]);
            }
        }
        assert(b.last() == t.last());
    }
}

/// Reading back an encoded value up to 268,435,455 gives the value and the
/// encoding's length (at most 4), whatever bytes follow it.
pub proof fn lemma_varint_roundtrip(v: nat, rest: Seq<u8>)
    requires
        v <= MAX_VARINT_VALUE,
    ensures
        varint_bytes(v).len() <= 4,
        varint_read(varint_bytes(v) + rest) == VarintRead::Value(v, varint_bytes(v).len()),
{
    lemma_varint_bytes_len(v);
    lemma_varint_from_encoding(Seq::empty(), v, rest);
    assert(Seq::<u8>::empty() + varint_bytes(v) + rest =~= varint_bytes(v) + rest);
    assert(Seq::<u8>::empty().len() == 0);
    assert(pow128(0) == 1);
    assert(v * pow128(0) == v);
}

/// Encode a value as a variable-length integer (1 to 5 bytes; at most 4 for
/// values up to 268,435,455).
pub fn encode_variable_int(value: u32) -> (r: Vec<u8>)
    ensures
        r@ == varint_bytes(value as nat),
{
    let mut bytes: Vec<u8> = Vec::with_capacity(4);
    let mut rest = value;
    loop
        invariant
            bytes@ + varint_bytes(rest as nat) == varint_bytes(value as nat),
        decreases rest,
    {
        let low = rest % 128;
        let next = rest / 128;
        if next > 0 {
            bytes.push((low + 128) as u8);
            proof {
                assert(bytes@ + varint_bytes(next as nat) == varint_bytes(value as nat)) by {
                    assert(varint_bytes(rest as nat) == seq![((rest % 128) + 128) as u8]
                        + varint_bytes(next as nat));
                    assert(bytes@ + varint_bytes(next as nat) =~= (bytes@.drop_last() + seq![
                        ((rest % 128) + 128) as u8,
                    ]) + varint_bytes(next as nat));
                }
            }
            rest = next;
        } else {
            bytes.push(low as u8);
            proof {
                assert(bytes@ =~= varint_bytes(value as nat));
            }
            return bytes;
        }
    }
}

/// Number of bytes needed to encode a value (capped at 4).
pub fn varint_len(value: u32) -> (r: usize)
    ensures
        r == spec_varint_len(value as nat),
        value <= MAX_VARINT_VALUE ==> r == varint_bytes(value as nat).len(),
{
    proof {
        lemma_varint_bytes_len(value as nat);
    }
    if value < 128 {
        1
    } else if value < 16_384 {
        2
    } else if value < 2_097_152 {
        3
    } else {
        4
    }
}

} // verus!
