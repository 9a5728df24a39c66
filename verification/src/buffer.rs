//! The byte buffer that responses are written to: `bytes::BytesMut`.
//!
//! What this crate knows of the buffer is stated here and taken on trust:
//! nothing below is proved.

use bytes::BytesMut;
use vstd::prelude::*;

verus! {

/// `bytes::BytesMut`, a growable buffer of bytes. Nothing of its inside is
/// known here.
#[verifier::external_type_specification]
#[verifier::external_body]
pub struct ExBytesMut(bytes::BytesMut);

/// The bytes that a buffer holds, in order: what `&buf[..]` gives.
pub uninterp spec fn bytes_mut_contents(buf: BytesMut) -> Seq<u8>;

/// `BytesMut::len`: the number of bytes that the buffer holds.
#[verifier::external_body]
pub(crate) fn buffer_len(buf: &BytesMut) -> (n: usize)
    ensures
        n == bytes_mut_contents(*buf).len(),
{
    buf.len()
}

/// `BytesMut::extend_from_slice`: appends the bytes of `extend` to the
/// buffer and leaves what it held before in place.
///
/// The call reserves room first. Reserving panics where a length
/// overflows, or where the allocation it asks for, doubling included,
/// would pass `isize::MAX` bytes. Whatever the buffer has given away or
/// still keeps spare, it never asks for four times the length that
/// results: the bound keeps away from both.
#[verifier::external_body]
pub(crate) fn buffer_extend(buf: &mut BytesMut, extend: &[u8])
    requires
        bytes_mut_contents(*old(buf)).len() + extend@.len() <= isize::MAX / 4,
    ensures
        bytes_mut_contents(*final(buf)) == bytes_mut_contents(*old(buf)) + extend@,
{
    buf.extend_from_slice(extend)
}

} // verus!
