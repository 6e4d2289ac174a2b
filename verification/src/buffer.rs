//! Trusted view of `bytes::BytesMut`, the growable byte buffer that the
//! pumps and the codec operate on.
//!
//! The buffer's contents are named by the uninterpreted function
//! [`buf_model`]; every operation the crate performs on a buffer goes through
//! one of the wrappers below, whose contracts state how the contents change.

use vstd::prelude::*;

verus! {

#[verifier::external_type_specification]
#[verifier::external_body]
pub struct ExBytesMut(bytes::BytesMut);

/// The bytes a `BytesMut` holds, in order.
pub uninterp spec fn buf_model(b: bytes::BytesMut) -> Seq<u8>;

/// Relies on `bytes::BytesMut::new`: a freshly created buffer is empty.
#[verifier::external_body]
pub fn buf_new() -> (r: bytes::BytesMut)
    ensures
        buf_model(r) =~= Seq::<u8>::empty(),
{
    bytes::BytesMut::new()
}

/// Relies on `bytes::BytesMut::len`: the number of bytes held.
#[verifier::external_body]
pub fn buf_len(b: &bytes::BytesMut) -> (r: usize)
    ensures
        r == buf_model(*b).len(),
{
    b.len()
}

/// Relies on `BytesMut`'s slice indexing (through `Deref` to `[u8]`): the
/// byte at position `i`.
#[verifier::external_body]
pub fn buf_get(b: &bytes::BytesMut, i: usize) -> (r: u8)
    requires
        i < buf_model(*b).len(),
    ensures
        r == buf_model(*b)[i as int],
{
    b[i]
}

/// Relies on `bytes::BytesMut::extend_from_slice`: appends the bytes of `s`.
#[verifier::external_body]
pub fn buf_put_slice(b: &mut bytes::BytesMut, s: &[u8])
    ensures
        buf_model(*final(b)) == buf_model(*old(b)) + s@,
{
    b.extend_from_slice(s)
}

/// Relies on `bytes::BytesMut::split_to`: removes and returns the first `at`
/// bytes, leaving the rest.
#[verifier::external_body]
pub fn buf_split_to(b: &mut bytes::BytesMut, at: usize) -> (r: bytes::BytesMut)
    requires
        at <= buf_model(*old(b)).len(),
    ensures
        buf_model(r) == buf_model(*old(b)).take(at as int),
        buf_model(*final(b)) == buf_model(*old(b)).skip(at as int),
{
    b.split_to(at)
}

/// Relies on `bytes::Buf::advance` for `BytesMut`: discards the first `cnt`
/// bytes.
#[verifier::external_body]
pub fn buf_advance(b: &mut bytes::BytesMut, cnt: usize)
    requires
        cnt <= buf_model(*old(b)).len(),
    ensures
        buf_model(*final(b)) == buf_model(*old(b)).skip(cnt as int),
{
    bytes::Buf::advance(b, cnt)
}

/// Relies on `bytes::BytesMut::reserve`: grows the capacity without touching
/// the contents.
#[verifier::external_body]
pub fn buf_reserve(b: &mut bytes::BytesMut, additional: usize)
    ensures
        buf_model(*final(b)) == buf_model(*old(b)),
{
    b.reserve(additional)
}

/// Relies on `BytesMut`'s `Deref` to `[u8]`: a view of the bytes held.
#[verifier::external_body]
pub fn buf_slice(b: &bytes::BytesMut) -> (r: &[u8])
    ensures
        r@ == buf_model(*b),
{
    b
}

} // verus!
