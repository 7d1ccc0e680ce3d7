//! The few operations of `bytes::BytesMut` that decoding and encoding into
//! one rest on.
use vstd::prelude::*;
use bytes::{BufMut, BytesMut};

verus! {

/// `bytes::BytesMut`, taken as it is: nothing of what is in one is known
/// here but what the functions below say of [`contents`].
#[verifier::external_type_specification]
#[verifier::external_body]
pub struct ExBytesMut(bytes::BytesMut);

/// The bytes that a `BytesMut` holds, first to last.
pub uninterp spec fn contents(buffer: bytes::BytesMut) -> Seq<u8>;

/// `BufMut::remaining_mut` of a `BytesMut`: how many more bytes it could
/// ever take, which is `isize::MAX` less its length.
#[verifier::external_body]
pub(crate) fn remaining_mut(buffer: &BytesMut) -> (room: usize)
    ensures
        room == isize::MAX - contents(*buffer).len(),
{
    buffer.remaining_mut()
}

/// The length of `BufMut::chunk_mut` of a `BytesMut`: the room between its
/// length and its capacity, after it has reserved 64 bytes if there was
/// none. The contents stay as they were.
#[verifier::external_body]
pub(crate) fn chunk_room(buffer: &mut BytesMut) -> (room: usize)
    ensures
        contents(*final(buffer)) == contents(*old(buffer)),
        room >= 1,
        contents(*old(buffer)).len() + room <= usize::MAX,
{
    buffer.chunk_mut().len()
}

/// `BytesMut::resize` with zero as the fill byte: cuts the contents down to
/// `new_len` bytes, or appends zeros up to that length.
#[verifier::external_body]
pub(crate) fn resize(buffer: &mut BytesMut, new_len: usize)
    ensures
        contents(*final(buffer)).len() == new_len,
        new_len <= contents(*old(buffer)).len() ==> contents(*final(buffer)) == contents(
            *old(buffer),
        ).take(new_len as int),
        new_len > contents(*old(buffer)).len() ==> contents(*final(buffer)).take(
            contents(*old(buffer)).len() as int,
        ) == contents(*old(buffer)),
{
    buffer.resize(new_len, 0)
}

/// `BytesMut::truncate`: keeps the first `len` bytes, or everything if there
/// are no more than that.
#[verifier::external_body]
pub(crate) fn truncate(buffer: &mut BytesMut, len: usize)
    ensures
        len <= contents(*old(buffer)).len() ==> contents(*final(buffer)) == contents(
            *old(buffer),
        ).take(len as int),
        len > contents(*old(buffer)).len() ==> contents(*final(buffer)) == contents(*old(buffer)),
{
    buffer.truncate(len)
}

/// `AsMut::as_mut` of a `BytesMut`: its contents as a slice to write
/// through.
#[verifier::external_body]
pub(crate) fn as_mut_slice(buffer: &mut BytesMut) -> (slice: &mut [u8])
    ensures
        slice@ == contents(*old(buffer)),
        contents(*final(buffer)) == final(slice)@,
{
    buffer.as_mut()
}

} // verus!
