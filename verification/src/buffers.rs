//! Byte buffers of the `bytes` crate, seen by the library through the
//! sequence of bytes each one holds.

use vstd::prelude::*;
use bytes::{Buf, Bytes, BytesMut};

verus! {

/// The immutable, cheaply cloneable byte buffer of the `bytes` crate.
#[verifier::external_type_specification]
#[verifier::external_body]
pub struct ExBytes(Bytes);

/// The bytes held by a `Bytes` value, in order.
pub uninterp spec fn bytes_contents(b: Bytes) -> Seq<u8>;

/// `<Bytes as Clone>::clone`: the clone holds the same bytes.
#[verifier::external_body]
pub fn bytes_clone(b: &Bytes) -> (r: Bytes)
    ensures
        bytes_contents(r) == bytes_contents(*b),
{
    b.clone()
}

/// `<Bytes as Deref>::deref`: the slice shows exactly the bytes held.
#[verifier::external_body]
pub fn bytes_as_slice(b: &Bytes) -> (r: &[u8])
    ensures
        r@ == bytes_contents(*b),
{
    &b[..]
}


/// The growable byte buffer of the `bytes` crate.
#[verifier::external_type_specification]
#[verifier::external_body]
pub struct ExBytesMut(BytesMut);

/// The bytes held by a `BytesMut` value, in order.
pub uninterp spec fn bytes_mut_contents(b: BytesMut) -> Seq<u8>;

/// `BytesMut::with_capacity`: a new, empty buffer. The capacity it reserves
/// is not stated.
#[verifier::external_body]
pub fn bytes_mut_with_capacity(capacity: usize) -> (r: BytesMut)
    ensures
        bytes_mut_contents(r) == Seq::<u8>::empty(),
{
    BytesMut::with_capacity(capacity)
}

/// `BytesMut::extend_from_slice`: the bytes of `data` are appended. The
/// buffer grows its allocation as needed, which is refused beyond
/// `isize::MAX` bytes.
#[verifier::external_body]
pub fn bytes_mut_extend(b: &mut BytesMut, data: &[u8])
    requires
        bytes_mut_contents(*old(b)).len() + data@.len() <= isize::MAX,
    ensures
        bytes_mut_contents(*final(b)) == bytes_mut_contents(*old(b)) + data@,
{
    b.extend_from_slice(data)
}

/// `<BytesMut as Deref>::deref`: the slice shows exactly the bytes held.
#[verifier::external_body]
pub fn bytes_mut_as_slice(b: &BytesMut) -> (r: &[u8])
    ensures
        r@ == bytes_mut_contents(*b),
{
    &b[..]
}

/// `<BytesMut as Buf>::advance`: the first `n` bytes are dropped. It panics
/// beyond the buffer's length.
#[verifier::external_body]
pub fn bytes_mut_advance(b: &mut BytesMut, n: usize)
    requires
        n <= bytes_mut_contents(*old(b)).len(),
    ensures
        bytes_mut_contents(*final(b)) == bytes_mut_contents(*old(b)).skip(n as int),
{
    b.advance(n)
}

/// `BytesMut::is_empty`: whether the buffer holds no byte.
#[verifier::external_body]
pub fn bytes_mut_is_empty(b: &BytesMut) -> (r: bool)
    ensures
        r == (bytes_mut_contents(*b).len() == 0),
{
    b.is_empty()
}

} // verus!
