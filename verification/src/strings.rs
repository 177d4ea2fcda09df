//! Text and byte helpers: UTF-8 conversion from std, and comparisons proved
//! here.

use vstd::prelude::*;

use vstd::utf8::{
    decode_utf8, encode_scalar, encode_utf8, has_width_1_encoding, last_continuation_byte,
    leading_byte_width_1, leading_byte_width_2, leading_byte_width_3, leading_byte_width_4,
    second_last_continuation_byte, third_last_continuation_byte, valid_utf8,
};

verus! {

broadcast use vstd::utf8::group_utf8_lib;

/// `String::from_utf8` on a copy of `data`: `Ok` exactly when `data` is
/// valid UTF-8, and then the string of the characters that `data` encodes.
/// The error's message is std's `FromUtf8Error` text, which is not stated.
#[verifier::external_body]
pub(crate) fn string_from_utf8(data: &[u8]) -> (r: Result<String, String>)
    ensures
        r is Ok <==> valid_utf8(data@),
        r matches Ok(s) ==> s@ == decode_utf8(data@),
{
    String::from_utf8(data.to_vec()).map_err(|e| e.to_string())
}

/// True when the two byte sequences are equal.
pub fn bytes_equal(a: &[u8], b: &[u8]) -> (r: bool)
    ensures
        r == (a@ == b@),
{
    if a.len() != b.len() {
        return false;
    }
    let mut i: usize = 0;
    while i < a.len()
        invariant
            a@.len() == b@.len(),
            i <= a@.len(),
            forall|j: int| 0 <= j < i ==> a@[j] == b@[j],
        decreases a@.len() - i,
    {
        if a[i] != b[i] {
            return false;
        }
        i = i + 1;
    }
    assert(a@ =~= b@);
    true
}

/// True when `s` holds the byte `x`.
pub fn bytes_contain(s: &[u8], x: u8) -> (r: bool)
    ensures
        r == s@.contains(x),
{
    let mut i: usize = 0;
    while i < s.len()
        invariant
            i <= s@.len(),
            forall|j: int| 0 <= j < i ==> s@[j] != x,
        decreases s@.len() - i,
    {
        if s[i] == x {
            return true;
        }
        i = i + 1;
    }
    false
}

/// Equal UTF-8 encodings mean equal character sequences.
pub proof fn lemma_encode_utf8_injective(a: Seq<char>, b: Seq<char>)
    requires
        encode_utf8(a) == encode_utf8(b),
    ensures
        a == b,
{
    assert(decode_utf8(encode_utf8(a)) == a);
    assert(decode_utf8(encode_utf8(b)) == b);
}

/// True when the two strings hold the same characters.
pub fn str_equal(a: &str, b: &str) -> (r: bool)
    ensures
        r == (a@ == b@),
{
    let r = bytes_equal(a.as_bytes(), b.as_bytes());
    proof {
        if r {
            lemma_encode_utf8_injective(a@, b@);
        }
    }
    r
}

/// The bytes of multi-byte UTF-8 sequences all have the high bit set.
proof fn lemma_utf8_byte_ranges(v: u32)
    by (bit_vector)
    ensures
        leading_byte_width_2(v) >= 0x80,
        leading_byte_width_3(v) >= 0x80,
        leading_byte_width_4(v) >= 0x80,
        last_continuation_byte(v) >= 0x80,
        second_last_continuation_byte(v) >= 0x80,
        third_last_continuation_byte(v) >= 0x80,
        v <= 0x7F ==> leading_byte_width_1(v) == v,
{
}

/// An ASCII byte occurs in the encoding of a scalar only as the encoding of
/// that same character.
proof fn lemma_encode_scalar_ascii(v: u32, x: u8)
    requires
        x < 128,
    ensures
        encode_scalar(v).contains(x) <==> v == x,
{
    lemma_utf8_byte_ranges(v);
    if has_width_1_encoding(v) {
        assert(encode_scalar(v)[0] == v);
    } else {
        assert(forall|i: int| 0 <= i < encode_scalar(v).len() ==> encode_scalar(v)[i] >= 0x80);
    }
}

/// An ASCII byte occurs in a UTF-8 encoding exactly when its character occurs
/// in the text.
pub proof fn lemma_encode_utf8_ascii(s: Seq<char>, c: char, x: u8)
    requires
        x < 128,
        c as u32 == x as u32,
    ensures
        encode_utf8(s).contains(x) <==> s.contains(c),
    decreases s.len(),
{
    broadcast use vstd::utf8::group_utf8_lib;

    if s.len() > 0 {
        let first = encode_scalar(s[0] as u32);
        let rest = encode_utf8(s.drop_first());
        lemma_encode_utf8_ascii(s.drop_first(), c, x);
        lemma_encode_scalar_ascii(s[0] as u32, x);
        assert(encode_utf8(s) == first + rest);
        if (first + rest).contains(x) {
            let i = choose|i: int| 0 <= i < (first + rest).len() && (first + rest)[i] == x;
            if i < first.len() {
                assert(first[i] == x);
            } else {
                assert(rest[i - first.len()] == x);
            }
        }
        if first.contains(x) {
            let i = choose|i: int| 0 <= i < first.len() && first[i] == x;
            assert((first + rest)[i] == x);
        }
        if rest.contains(x) {
            let i = choose|i: int| 0 <= i < rest.len() && rest[i] == x;
            assert((first + rest)[i + first.len()] == x);
        }
        if s.contains(c) {
            let i = choose|i: int| 0 <= i < s.len() && s[i] == c;
            if i > 0 {
                assert(s.drop_first()[i - 1] == c);
            }
        }
        if s.drop_first().contains(c) {
            let i = choose|i: int| 0 <= i < s.drop_first().len() && s.drop_first()[i] == c;
            assert(s[i + 1] == c);
        }
        if s[0] as u32 == x as u32 {
            vstd::utf8::char_u32_cast(s[0], s[0] as u32);
            vstd::utf8::char_u32_cast(c, c as u32);
            assert(s[0] == c);
        }
    }
}

/// True when `s` holds the ASCII character `c`, whose byte is `b`.
pub fn str_contains_ascii(s: &str, c: char, b: u8) -> (r: bool)
    requires
        b < 128,
        c as u32 == b as u32,
    ensures
        r == s@.contains(c),
{
    proof {
        lemma_encode_utf8_ascii(s@, c, b);
    }
    bytes_contain(s.as_bytes(), b)
}

/// The character of digit `d` (0 to 15): `0` to `9`, then `a` to `f`.
pub open spec fn digit_char(d: nat) -> char {
    if d < 10 {
        (d + 48) as char
    } else {
        (d + 87) as char
    }
}

/// The decimal digits of `n`, most significant first, without leading
/// zeros ("0" for zero).
pub open spec fn decimal(n: nat) -> Seq<char>
    decreases n,
{
    if n < 10 {
        seq![digit_char(n)]
    } else {
        decimal(n / 10).push(digit_char(n % 10))
    }
}

/// The last `k` hexadecimal digits of `n`, most significant first, with
/// leading zeros.
pub open spec fn hex_digits(n: nat, k: nat) -> Seq<char>
    decreases k,
{
    if k == 0 {
        Seq::empty()
    } else {
        hex_digits(n / 16, (k - 1) as nat).push(digit_char(n % 16))
    }
}

/// The one-character string of digit `d`.
fn digit_str(d: u64) -> (r: &'static str)
    requires
        d < 16,
    ensures
        r@ == seq![digit_char(d as nat)],
{
    proof {
        reveal_strlit("0");
        reveal_strlit("1");
        reveal_strlit("2");
        reveal_strlit("3");
        reveal_strlit("4");
        reveal_strlit("5");
        reveal_strlit("6");
        reveal_strlit("7");
        reveal_strlit("8");
        reveal_strlit("9");
        reveal_strlit("a");
        reveal_strlit("b");
        reveal_strlit("c");
        reveal_strlit("d");
        reveal_strlit("e");
        reveal_strlit("f");
    }
    let r = if d == 0 {
        "0"
    } else if d == 1 {
        "1"
    } else if d == 2 {
        "2"
    } else if d == 3 {
        "3"
    } else if d == 4 {
        "4"
    } else if d == 5 {
        "5"
    } else if d == 6 {
        "6"
    } else if d == 7 {
        "7"
    } else if d == 8 {
        "8"
    } else if d == 9 {
        "9"
    } else if d == 10 {
        "a"
    } else if d == 11 {
        "b"
    } else if d == 12 {
        "c"
    } else if d == 13 {
        "d"
    } else if d == 14 {
        "e"
    } else {
        "f"
    };
    assert(r@ =~= seq![digit_char(d as nat)]);
    r
}

/// Append the decimal digits of `n`.
pub fn push_decimal(s: &mut String, n: u64)
    ensures
        final(s)@ == old(s)@ + decimal(n as nat),
    decreases n,
{
    if n >= 10 {
        push_decimal(s, n / 10);
    }
    s.append(digit_str(n % 10));
    proof {
        if n >= 10 {
            assert(old(s)@ + decimal(n as nat) =~= old(s)@ + decimal((n / 10) as nat) + seq![
                digit_char((n % 10) as nat),
            ]);
        } else {
            assert(old(s)@ + decimal(n as nat) =~= old(s)@ + seq![digit_char(n as nat)]);
        }
    }
}

/// Append the last `k` hexadecimal digits of `n`, with leading zeros.
pub fn push_hex(s: &mut String, n: u64, k: u32)
    ensures
        final(s)@ == old(s)@ + hex_digits(n as nat, k as nat),
    decreases k,
{
    if k == 0 {
        assert(old(s)@ + hex_digits(n as nat, 0) =~= old(s)@);
        return;
    }
    push_hex(s, n / 16, k - 1);
    s.append(digit_str(n % 16));
    assert(old(s)@ + hex_digits(n as nat, k as nat) =~= old(s)@ + hex_digits((n / 16) as nat, (k - 1) as nat)
        + seq![digit_char((n % 16) as nat)]);
}

} // verus!
