//! Trusted boundary to the `bytes` crate, which supplies the growable
//! decode buffer (`BytesMut`) and the cheap, reference-counted snapshot
//! (`Bytes`) that a decoded request keeps its byte ranges valid against.
//!
//! Every item here is believed, not proved: each wrapper's contract states
//! what the named outside function's source shows, over the two content
//! functions `buffer_bytes` and `snapshot_bytes`.

use vstd::prelude::*;
use vstd::utf8::decode_utf8;
use vstd::utf8::valid_utf8;

verus! {

#[verifier::external_type_specification]
#[verifier::external_body]
pub struct ExBytesMut(bytes::BytesMut);

#[verifier::external_type_specification]
#[verifier::external_body]
pub struct ExBytes(bytes::Bytes);

/// The bytes a `BytesMut` buffer holds, in order.
pub uninterp spec fn buffer_bytes(b: bytes::BytesMut) -> Seq<u8>;

/// The bytes a `Bytes` snapshot holds, in order.
pub uninterp spec fn snapshot_bytes(b: bytes::Bytes) -> Seq<u8>;

/// Relies on `BytesMut`'s deref to a byte slice: the slice holds exactly
/// the buffer's bytes.
#[verifier::external_body]
pub(crate) fn buffer_slice(b: &bytes::BytesMut) -> (r: &[u8])
    ensures
        r@ == buffer_bytes(*b),
{
    b.as_ref()
}

/// Relies on `BytesMut::split_to`: afterwards the buffer holds the bytes
/// from `at` on, and the returned buffer holds the first `at` bytes.
/// `split_to` panics when `at` is past the end, so that is required away.
#[verifier::external_body]
pub(crate) fn buffer_split_to(b: &mut bytes::BytesMut, at: usize) -> (r: bytes::BytesMut)
    requires
        at <= buffer_bytes(*old(b)).len(),
    ensures
        buffer_bytes(r) == buffer_bytes(*old(b)).take(at as int),
        buffer_bytes(*final(b)) == buffer_bytes(*old(b)).skip(at as int),
{
    b.split_to(at)
}

/// Relies on `BytesMut::freeze`: the immutable snapshot holds the same
/// bytes the buffer held.
#[verifier::external_body]
pub(crate) fn buffer_freeze(b: bytes::BytesMut) -> (r: bytes::Bytes)
    ensures
        snapshot_bytes(r) == buffer_bytes(b),
{
    b.freeze()
}

/// Relies on `Bytes`'s deref to a byte slice: the slice holds exactly the
/// snapshot's bytes.
#[verifier::external_body]
pub(crate) fn snapshot_slice(b: &bytes::Bytes) -> (r: &[u8])
    ensures
        r@ == snapshot_bytes(*b),
{
    b.as_ref()
}

/// Relies on `Bytes::slice`: the result shares the given sub-range without
/// copying.  `slice` panics on an out-of-bounds range, so that is required
/// away.
#[verifier::external_body]
pub(crate) fn snapshot_slice_range(b: &bytes::Bytes, start: usize, end: usize) -> (r:
    bytes::Bytes)
    requires
        start <= end <= snapshot_bytes(*b).len(),
    ensures
        snapshot_bytes(r) == snapshot_bytes(*b).subrange(start as int, end as int),
{
    b.slice(start..end)
}

/// Relies on `String::from_utf8`: it returns the decoded string exactly
/// when the bytes are valid UTF-8, and refuses them otherwise.
#[verifier::external_body]
pub(crate) fn string_from_bytes(v: Vec<u8>) -> (r: Option<String>)
    ensures
        match r {
            Some(s) => valid_utf8(v@) && s@ == decode_utf8(v@),
            None => !valid_utf8(v@),
        },
{
    String::from_utf8(v).ok()
}

} // verus!
