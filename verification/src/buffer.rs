//! The growable byte buffer that received bytes wait in.
use bytes::BytesMut;
use vstd::prelude::*;

verus! {

#[verifier::external_type_specification]
#[verifier::external_body]
pub struct ExBytesMut(BytesMut);

/// The bytes that a `BytesMut` holds, first to last.
pub uninterp spec fn held(buf: BytesMut) -> Seq<u8>;

/// `BytesMut::with_capacity`: the new buffer holds nothing.
#[verifier::external_body]
pub(crate) fn with_capacity(capacity: usize) -> (buf: BytesMut)
    ensures
        held(buf) == Seq::<u8>::empty(),
{
    BytesMut::with_capacity(capacity)
}

/// `BytesMut::extend_from_slice`: `bytes` follow what the buffer held.
#[verifier::external_body]
pub(crate) fn extend_from_slice(buf: &mut BytesMut, bytes: &[u8])
    ensures
        held(*final(buf)) == held(*old(buf)) + bytes@,
{
    buf.extend_from_slice(bytes)
}

} // verus!
