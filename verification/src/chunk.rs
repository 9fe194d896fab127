//! Chunks of downloaded bytes.
//!
//! A chunk is a `bytes::Bytes` buffer as the HTTP client hands it out. The
//! engine never looks at the memory behind a chunk itself: it measures, cuts
//! and copies chunks through the functions of this module, whose contracts
//! restate the documentation of the `bytes` crate and are not proved here.

use vstd::prelude::*;
use bytes::Bytes;

verus! {

/// `bytes::Bytes`, opaque to the verifier.
#[verifier::external_type_specification]
#[verifier::external_body]
pub struct ExBytes(bytes::Bytes);

/// The bytes that a chunk holds, in order.
pub uninterp spec fn chunk_bytes(chunk: Bytes) -> Seq<u8>;

/// `Bytes::len`: the number of bytes in the chunk.
#[verifier::external_body]
pub(crate) fn chunk_len(chunk: &Bytes) -> (n: usize)
    ensures
        n == chunk_bytes(*chunk).len(),
{
    chunk.len()
}

/// `Bytes::truncate`: keeps the first `len` bytes and drops the rest; a chunk
/// that is not longer than `len` stays as it is.
#[verifier::external_body]
pub(crate) fn chunk_truncate(chunk: &mut Bytes, len: usize)
    ensures
        chunk_bytes(*final(chunk)) == if len < chunk_bytes(*old(chunk)).len() {
            chunk_bytes(*old(chunk)).take(len as int)
        } else {
            chunk_bytes(*old(chunk))
        },
{
    chunk.truncate(len)
}

/// `Bytes::slice` with the range `begin..`: the chunk without its first
/// `begin` bytes. The outside function panics when `begin` lies behind the
/// end of the chunk.
#[verifier::external_body]
pub(crate) fn chunk_slice_from(chunk: &Bytes, begin: usize) -> (rest: Bytes)
    requires
        begin <= chunk_bytes(*chunk).len(),
    ensures
        chunk_bytes(rest) == chunk_bytes(*chunk).skip(begin as int),
{
    chunk.slice(begin..)
}

/// `Deref for Bytes`: the chunk as a byte slice.
#[verifier::external_body]
pub(crate) fn chunk_as_slice(chunk: &Bytes) -> (bytes: &[u8])
    ensures
        bytes@ == chunk_bytes(*chunk),
{
    chunk
}

} // verus!
