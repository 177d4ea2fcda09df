//! Byte buffers of the `bytes` crate, as the library uses them.
//!
//! `Bytes` and `BytesMut` are opaque to Verus; what a buffer holds is named by
//! `bytes_seq` and `bytes_mut_seq`, and each method that the library calls has
//! a small trusted wrapper that states, over those names, what the `bytes`
//! source does.

use vstd::prelude::*;

use bytes::{BufMut, Bytes, BytesMut};

verus! {

#[verifier::external_type_specification]
#[verifier::external_body]
pub struct ExBytes(Bytes);

#[verifier::external_type_specification]
#[verifier::external_body]
pub struct ExBytesMut(BytesMut);

/// The bytes that a `Bytes` handle refers to.
pub uninterp spec fn bytes_seq(b: Bytes) -> Seq<u8>;

/// The bytes that a `BytesMut` buffer holds.
pub uninterp spec fn bytes_mut_seq(b: BytesMut) -> Seq<u8>;

/// `<Bytes as Clone>::clone`: another handle on the same bytes.
pub assume_specification[ <Bytes as Clone>::clone ](b: &Bytes) -> (r: Bytes)
    ensures
        bytes_seq(r) == bytes_seq(*b),
;

/// `Bytes::copy_from_slice`: a new handle on a copy of `data`.
#[verifier::external_body]
pub(crate) fn bytes_copy_from_slice(data: &[u8]) -> (b: Bytes)
    ensures
        bytes_seq(b) == data@,
{
    Bytes::copy_from_slice(data)
}

/// `Bytes::from(Vec<u8>)`: a handle that takes over the vector's bytes.
#[verifier::external_body]
pub(crate) fn bytes_from_vec(data: Vec<u8>) -> (b: Bytes)
    ensures
        bytes_seq(b) == data@,
{
    Bytes::from(data)
}

/// `<Bytes as Deref>::deref`: the referenced bytes as a slice.
#[verifier::external_body]
pub(crate) fn bytes_as_slice(b: &Bytes) -> (s: &[u8])
    ensures
        s@ == bytes_seq(*b),
{
    b.as_ref()
}

/// `BytesMut::with_capacity`: an empty buffer (the capacity is not
/// modelled). It panics when the capacity passes `isize::MAX`, which
/// `requires` rules out.
#[verifier::external_body]
pub(crate) fn bytes_mut_with_capacity(capacity: usize) -> (b: BytesMut)
    requires
        capacity <= isize::MAX,
    ensures
        bytes_mut_seq(b) == Seq::<u8>::empty(),
{
    BytesMut::with_capacity(capacity)
}

/// `BytesMut::put_u8`: appends one byte. It panics when the length would pass
/// `isize::MAX`, which `requires` rules out.
#[verifier::external_body]
pub(crate) fn bytes_mut_put_u8(buf: &mut BytesMut, n: u8)
    requires
        bytes_mut_seq(*old(buf)).len() < isize::MAX,
    ensures
        bytes_mut_seq(*final(buf)) == bytes_mut_seq(*old(buf)).push(n),
{
    buf.put_u8(n)
}

/// `BytesMut::put_u16`: appends the two bytes of `n`, most significant first.
#[verifier::external_body]
pub(crate) fn bytes_mut_put_u16(buf: &mut BytesMut, n: u16)
    requires
        bytes_mut_seq(*old(buf)).len() + 2 <= isize::MAX,
    ensures
        bytes_mut_seq(*final(buf)) == bytes_mut_seq(*old(buf)) + seq![
            (n / 256) as u8,
            (n % 256) as u8,
        ],
{
    buf.put_u16(n)
}

/// `BytesMut::put_slice`: appends the bytes of `src`.
#[verifier::external_body]
pub(crate) fn bytes_mut_put_slice(buf: &mut BytesMut, src: &[u8])
    requires
        bytes_mut_seq(*old(buf)).len() + src@.len() <= isize::MAX,
    ensures
        bytes_mut_seq(*final(buf)) == bytes_mut_seq(*old(buf)) + src@,
{
    buf.put_slice(src)
}

/// `BytesMut::reserve`: makes room for `additional` more bytes; what the
/// buffer holds is unchanged (the capacity is not modelled). It panics when
/// the new capacity would overflow `usize`, which `requires` rules out.
#[verifier::external_body]
pub(crate) fn bytes_mut_reserve(buf: &mut BytesMut, additional: usize)
    requires
        bytes_mut_seq(*old(buf)).len() + additional <= isize::MAX,
    ensures
        bytes_mut_seq(*final(buf)) == bytes_mut_seq(*old(buf)),
{
    buf.reserve(additional)
}

/// `<BytesMut as Deref>::deref`: the held bytes as a slice.
#[verifier::external_body]
pub(crate) fn bytes_mut_as_slice(b: &BytesMut) -> (s: &[u8])
    ensures
        s@ == bytes_mut_seq(*b),
{
    b.as_ref()
}

/// `BytesMut::split_to`: removes the first `at` bytes and returns them. It
/// panics when `at` exceeds the length, which `requires` rules out.
#[verifier::external_body]
pub(crate) fn bytes_mut_split_to(buf: &mut BytesMut, at: usize) -> (front: BytesMut)
    requires
        at <= bytes_mut_seq(*old(buf)).len(),
    ensures
        bytes_mut_seq(front) == bytes_mut_seq(*old(buf)).take(at as int),
        bytes_mut_seq(*final(buf)) == bytes_mut_seq(*old(buf)).skip(at as int),
{
    buf.split_to(at)
}

} // verus!
