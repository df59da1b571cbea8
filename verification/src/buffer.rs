//! The byte buffer the service reads requests from and writes responses to.
//!
//! `bytes::BytesMut` is opaque to the verifier. Its contents are named by
//! [`buffer_bytes`], and every operation the service performs on a buffer is
//! given a contract over that name. None of these contracts is proved: each
//! restates what the `bytes` crate implements.

use bytes::{Buf, BufMut, BytesMut};
use vstd::prelude::*;

verus! {

/// `bytes::BytesMut`, a growable buffer of bytes. The verifier sees nothing
/// inside it.
#[verifier::external_type_specification]
#[verifier::external_body]
pub struct ExBytesMut(bytes::BytesMut);

/// The bytes a buffer currently holds, first byte first.
pub uninterp spec fn buffer_bytes(buffer: BytesMut) -> Seq<u8>;

/// The unsigned 16-bit number whose big-endian encoding is `hi`, `lo`.
pub open spec fn u16_from_be(hi: u8, lo: u8) -> u16 {
    (hi * 256 + lo) as u16
}

/// The big-endian encoding of an unsigned 16-bit number.
pub open spec fn u16_to_be(n: u16) -> Seq<u8> {
    seq![(n / 256) as u8, (n % 256) as u8]
}

/// The big-endian encoding of an unsigned 32-bit number.
pub open spec fn u32_to_be(n: u32) -> Seq<u8> {
    seq![
        (n / 0x100_0000) as u8,
        (n / 0x1_0000 % 256) as u8,
        (n / 0x100 % 256) as u8,
        (n % 256) as u8,
    ]
}

/// Whether `extra` more bytes can be appended to a buffer of `len` bytes
/// without the allocation exceeding what the platform can address.
pub open spec fn can_grow(len: nat, extra: nat) -> bool {
    len + extra <= isize::MAX
}

/// `BytesMut::new` returns a buffer of length zero.
pub assume_specification[ BytesMut::new ]() -> (buffer: BytesMut)
    ensures
        buffer_bytes(buffer) == Seq::<u8>::empty(),
;

/// `BytesMut::with_capacity` returns a buffer of length zero, whatever the
/// capacity. The underlying `Vec::with_capacity` panics when the capacity
/// exceeds `isize::MAX` bytes.
pub assume_specification[ BytesMut::with_capacity ](capacity: usize) -> (buffer: BytesMut)
    requires
        capacity <= isize::MAX,
    ensures
        buffer_bytes(buffer) == Seq::<u8>::empty(),
;

/// `BytesMut::len` returns the number of bytes held.
pub assume_specification[ BytesMut::len ](buffer: &BytesMut) -> (len: usize)
    ensures
        len == buffer_bytes(*buffer).len(),
;

/// `BytesMut::is_empty` tells whether the length is zero.
pub assume_specification[ BytesMut::is_empty ](buffer: &BytesMut) -> (empty: bool)
    ensures
        empty == (buffer_bytes(*buffer).len() == 0),
;

/// `BytesMut::split_to` returns the first `at` bytes as a buffer of their own
/// and leaves the remaining bytes behind. It panics when `at` exceeds the
/// length.
pub assume_specification[ BytesMut::split_to ](buffer: &mut BytesMut, at: usize) -> (head:
    BytesMut)
    requires
        at <= buffer_bytes(*old(buffer)).len(),
    ensures
        buffer_bytes(head) == buffer_bytes(*old(buffer)).take(at as int),
        buffer_bytes(*final(buffer)) == buffer_bytes(*old(buffer)).skip(at as int),
;

/// `BytesMut::reserve` changes the capacity only, never the contents. It
/// panics when the new capacity cannot be represented; running out of
/// memory is outside this contract, here and wherever a buffer grows.
pub assume_specification[ BytesMut::reserve ](buffer: &mut BytesMut, additional: usize)
    requires
        can_grow(buffer_bytes(*old(buffer)).len(), additional as nat),
    ensures
        buffer_bytes(*final(buffer)) == buffer_bytes(*old(buffer)),
;

/// `Buf::advance` on a `BytesMut` drops the first `cnt` bytes. It panics when
/// `cnt` exceeds the length.
pub assume_specification[ <BytesMut as Buf>::advance ](buffer: &mut BytesMut, cnt: usize)
    requires
        cnt <= buffer_bytes(*old(buffer)).len(),
    ensures
        buffer_bytes(*final(buffer)) == buffer_bytes(*old(buffer)).skip(cnt as int),
;

/// `Buf::get_u16` reads the first two bytes as a big-endian number and drops
/// them from the buffer. It panics when fewer than two bytes are held.
#[verifier::external_body]
pub(crate) fn get_u16(buffer: &mut BytesMut) -> (n: u16)
    requires
        2 <= buffer_bytes(*old(buffer)).len(),
    ensures
        n == u16_from_be(buffer_bytes(*old(buffer))[0], buffer_bytes(*old(buffer))[1]),
        buffer_bytes(*final(buffer)) == buffer_bytes(*old(buffer)).skip(2),
{
    buffer.get_u16()
}

/// `BufMut::put` with a slice as its source appends the slice to the buffer,
/// growing the allocation as needed.
#[verifier::external_body]
pub(crate) fn put(buffer: &mut BytesMut, src: &[u8])
    requires
        can_grow(buffer_bytes(*old(buffer)).len(), src@.len()),
    ensures
        buffer_bytes(*final(buffer)) == buffer_bytes(*old(buffer)) + src@,
{
    buffer.put(src)
}

/// `BufMut::put_u8` appends one byte.
#[verifier::external_body]
pub(crate) fn put_u8(buffer: &mut BytesMut, n: u8)
    requires
        can_grow(buffer_bytes(*old(buffer)).len(), 1),
    ensures
        buffer_bytes(*final(buffer)) == buffer_bytes(*old(buffer)).push(n),
{
    buffer.put_u8(n)
}

/// `BufMut::put_u16` appends the two bytes of `n`, most significant first.
#[verifier::external_body]
pub(crate) fn put_u16(buffer: &mut BytesMut, n: u16)
    requires
        can_grow(buffer_bytes(*old(buffer)).len(), 2),
    ensures
        buffer_bytes(*final(buffer)) == buffer_bytes(*old(buffer)) + u16_to_be(n),
{
    buffer.put_u16(n)
}

/// `BufMut::put_u32` appends the four bytes of `n`, most significant first.
#[verifier::external_body]
pub(crate) fn put_u32(buffer: &mut BytesMut, n: u32)
    requires
        can_grow(buffer_bytes(*old(buffer)).len(), 4),
    ensures
        buffer_bytes(*final(buffer)) == buffer_bytes(*old(buffer)) + u32_to_be(n),
{
    buffer.put_u32(n)
}

/// Dereferencing a `BytesMut` yields its bytes as a slice.
#[verifier::external_body]
pub(crate) fn as_slice(buffer: &BytesMut) -> (bytes: &[u8])
    ensures
        bytes@ == buffer_bytes(*buffer),
{
    &buffer[..]
}

/// Mutably dereferencing a `BytesMut` and indexing from `start` yields the
/// bytes from `start` on. Writes through the slice land in the buffer; the
/// bytes before `start` and the length stay as they were. Indexing panics
/// when `start` exceeds the length.
#[verifier::external_body]
pub(crate) fn tail_mut(buffer: &mut BytesMut, start: usize) -> (tail: &mut [u8])
    requires
        start <= buffer_bytes(*old(buffer)).len(),
    ensures
        tail@ == buffer_bytes(*old(buffer)).skip(start as int),
        final(tail)@.len() == tail@.len(),
        buffer_bytes(*final(buffer))
            == buffer_bytes(*old(buffer)).take(start as int) + final(tail)@,
{
    &mut buffer[start..]
}

} // verus!
