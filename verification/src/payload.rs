//! Read buffers and the payloads cut from them.
//!
//! A read fills the front of a fixed-size buffer; the filled front, frozen,
//! is the payload that travels to the outbound writer. Both are values of the
//! `bytes` crate, which this module describes by the bytes they hold.

use vstd::prelude::*;
use bytes::Bytes;
use bytes::BytesMut;

verus! {

/// `bytes::Bytes`, an immutable run of bytes.
#[verifier::external_type_specification]
#[verifier::external_body]
pub struct ExBytes(bytes::Bytes);

/// `bytes::BytesMut`, a run of bytes that can still be written and shortened.
#[verifier::external_type_specification]
#[verifier::external_body]
pub struct ExBytesMut(bytes::BytesMut);

/// The bytes a payload holds, first to last.
pub uninterp spec fn payload_bytes(payload: Bytes) -> Seq<u8>;

/// The bytes a buffer holds, first to last.
pub uninterp spec fn buffer_bytes(buffer: BytesMut) -> Seq<u8>;

/// The number of bytes one read may deliver.
pub const READ_SIZE: usize = 2048;

/// Calls `BytesMut::zeroed`, which returns a buffer of exactly `len` bytes,
/// each of them zero. Lengths beyond `isize::MAX`, which no allocation can
/// have, are left out.
#[verifier::external_body]
fn zeroed_buffer(len: usize) -> (buffer: BytesMut)
    requires
        len <= isize::MAX,
    ensures
        buffer_bytes(buffer) == Seq::new(len as nat, |i: int| 0u8),
{
    BytesMut::zeroed(len)
}

/// Calls `BytesMut::truncate`, which keeps the first `len` bytes and drops
/// the rest; a `len` beyond the buffer's length leaves the buffer as it is.
#[verifier::external_body]
fn truncate_buffer(buffer: &mut BytesMut, len: usize)
    ensures
        buffer_bytes(*final(buffer)) == if len <= buffer_bytes(*old(buffer)).len() {
            buffer_bytes(*old(buffer)).take(len as int)
        } else {
            buffer_bytes(*old(buffer))
        },
{
    buffer.truncate(len)
}

/// Calls `BytesMut::freeze`, which turns the buffer into an immutable
/// payload of the same bytes.
#[verifier::external_body]
fn freeze_buffer(buffer: BytesMut) -> (payload: Bytes)
    ensures
        payload_bytes(payload) == buffer_bytes(buffer),
{
    buffer.freeze()
}

/// The first `count` bytes of `bytes`, or all of them if there are fewer.
pub open spec fn filled(bytes: Seq<u8>, count: usize) -> Seq<u8> {
    if count <= bytes.len() {
        bytes.take(count as int)
    } else {
        bytes
    }
}

/// A fresh buffer for one read: `READ_SIZE` bytes, all zero.
pub fn read_buffer() -> (buffer: BytesMut)
    ensures
        buffer_bytes(buffer) == Seq::new(READ_SIZE as nat, |i: int| 0u8),
{
    zeroed_buffer(READ_SIZE)
}

/// The payload of a read that put `count` bytes into `buffer`: the filled
/// front of the buffer and nothing of the unused rest.
pub fn filled_prefix(buffer: BytesMut, count: usize) -> (payload: Bytes)
    ensures
        payload_bytes(payload) == filled(buffer_bytes(buffer), count),
{
    let mut buffer = buffer;
    truncate_buffer(&mut buffer, count);
    freeze_buffer(buffer)
}

} // verus!
