//! Byte buffers of the `bytes` crate, as the framer uses them.
//!
//! `BytesMut` accumulates what a transport delivers and `Bytes` is a frame that many
//! holders share. What each holds is a sequence of bytes; the contracts below say what
//! the crate's functions do to it. Running out of memory is left out of them.

use bytes::{Buf, Bytes, BytesMut};
use vstd::prelude::*;

verus! {

/// `bytes::BytesMut`.
#[verifier::external_type_specification]
#[verifier::external_body]
pub struct ExBytesMut(bytes::BytesMut);

/// `bytes::Bytes`.
#[verifier::external_type_specification]
#[verifier::external_body]
pub struct ExBytes(bytes::Bytes);

/// The bytes that a `BytesMut` holds, first to last.
pub uninterp spec fn buffered(b: BytesMut) -> Seq<u8>;

/// The bytes that a `Bytes` holds, first to last.
pub uninterp spec fn content(b: Bytes) -> Seq<u8>;

/// `BytesMut::with_capacity` makes an empty buffer. A capacity above `isize::MAX` panics.
#[verifier::external_body]
pub(crate) fn buffer_with_capacity(cap: usize) -> (r: BytesMut)
    requires
        cap <= isize::MAX,
    ensures
        buffered(r) == Seq::<u8>::empty(),
{
    BytesMut::with_capacity(cap)
}

/// `BytesMut` as a slice (its `AsRef<[u8]>`): the bytes held.
#[verifier::external_body]
pub(crate) fn buffer_bytes(b: &BytesMut) -> (r: &[u8])
    ensures
        r@ == buffered(*b),
{
    b.as_ref()
}

/// `Buf::advance` on a `BytesMut` drops the first `n` bytes. It panics where fewer are
/// held.
#[verifier::external_body]
pub(crate) fn buffer_advance(b: &mut BytesMut, n: usize)
    requires
        n <= buffered(*old(b)).len(),
    ensures
        buffered(*final(b)) == buffered(*old(b)).skip(n as int),
{
    b.advance(n)
}

/// `BytesMut::clear` drops every byte.
#[verifier::external_body]
pub(crate) fn buffer_clear(b: &mut BytesMut)
    ensures
        buffered(*final(b)) == Seq::<u8>::empty(),
{
    b.clear()
}

/// `BytesMut::split_to` takes the first `n` bytes out into a buffer of their own and
/// leaves the rest. It panics where fewer are held.
#[verifier::external_body]
pub(crate) fn buffer_split_to(b: &mut BytesMut, n: usize) -> (r: BytesMut)
    requires
        n <= buffered(*old(b)).len(),
    ensures
        buffered(r) == buffered(*old(b)).take(n as int),
        buffered(*final(b)) == buffered(*old(b)).skip(n as int),
{
    b.split_to(n)
}

/// `BytesMut::freeze` makes the bytes held shareable and keeps them as they are.
#[verifier::external_body]
pub(crate) fn buffer_freeze(b: BytesMut) -> (r: Bytes)
    ensures
        content(r) == buffered(b),
{
    b.freeze()
}

/// `BytesMut::reserve` makes room for `n` more bytes and keeps what is held. It panics
/// where the room does not fit the address space.
#[verifier::external_body]
pub(crate) fn buffer_reserve(b: &mut BytesMut, n: usize)
    requires
        buffered(*old(b)).len() + n <= isize::MAX,
    ensures
        buffered(*final(b)) == buffered(*old(b)),
{
    b.reserve(n)
}

/// `BytesMut::extend_from_slice` appends `data`. It panics where the result does not fit
/// the address space.
#[verifier::external_body]
pub(crate) fn buffer_extend(b: &mut BytesMut, data: &[u8])
    requires
        buffered(*old(b)).len() + data@.len() <= isize::MAX,
    ensures
        buffered(*final(b)) == buffered(*old(b)) + data@,
{
    b.extend_from_slice(data)
}

/// `Bytes::len` is the number of bytes held.
#[verifier::external_body]
pub(crate) fn content_len(b: &Bytes) -> (r: usize)
    ensures
        r == content(*b).len(),
{
    b.len()
}

} // verus!
