//! Trusted view of the decision source.
//!
//! The generator draws all of its randomness from `arbitrary::Unstructured`,
//! a cursor over a caller-supplied finite byte buffer. Every draw is a pure
//! function of the bytes remaining in the buffer (and the draw's bounds), so
//! each outcome is given a name here, and the wrappers state that the drawn
//! value and the bytes left afterwards equal that named outcome. Nothing
//! else about the outcomes is assumed.

use vstd::prelude::*;

verus! {

#[verifier::external_type_specification]
#[verifier::external_body]
pub struct ExUnstructured<'a>(arbitrary::Unstructured<'a>);

#[verifier::external_type_specification]
#[verifier::external_body]
pub struct ExArbitraryError(arbitrary::Error);

/// The bytes remaining in the decision source's buffer.
pub uninterp spec fn ubytes(u: arbitrary::Unstructured) -> Seq<u8>;

/// Outcome of drawing an integer in `[lo, hi]` from a buffer: the drawn value
/// (`None` when the source reports exhaustion) and the bytes left afterwards.
pub uninterp spec fn int_draw(bytes: Seq<u8>, lo: u64, hi: u64) -> (Option<u64>, Seq<u8>);

/// Outcome of drawing an index below `len` from a buffer.
pub uninterp spec fn index_draw(bytes: Seq<u8>, len: usize) -> (Option<usize>, Seq<u8>);

/// Outcome of drawing an arbitrary-length byte sequence from a buffer.
pub uninterp spec fn bytes_draw(bytes: Seq<u8>) -> (Option<Seq<u8>>, Seq<u8>);

/// Relies on `arbitrary::Unstructured::int_in_range` over a non-empty `u64`
/// range: the drawn value lies within the bounds, and both the value and the
/// remaining buffer are functions of the prior buffer and the bounds alone.
#[verifier::external_body]
pub(crate) fn draw_int(u: &mut arbitrary::Unstructured, lo: u64, hi: u64) -> (r: Result<
    u64,
    arbitrary::Error,
>)
    requires
        lo <= hi,
    ensures
        ubytes(*final(u)) == int_draw(ubytes(*old(u)), lo, hi).1,
        match r {
            Ok(v) => lo <= v <= hi && int_draw(ubytes(*old(u)), lo, hi).0 == Some(v),
            Err(_) => int_draw(ubytes(*old(u)), lo, hi).0 is None,
        },
{
    u.int_in_range(lo..=hi)
}

/// Relies on `arbitrary::Unstructured::choose_index`: for a positive `len`
/// the drawn index is below it, and the index and the remaining buffer are
/// functions of the prior buffer and `len` alone.
#[verifier::external_body]
pub(crate) fn draw_index(u: &mut arbitrary::Unstructured, len: usize) -> (r: Result<
    usize,
    arbitrary::Error,
>)
    requires
        len > 0,
    ensures
        ubytes(*final(u)) == index_draw(ubytes(*old(u)), len).1,
        match r {
            Ok(i) => i < len && index_draw(ubytes(*old(u)), len).0 == Some(i),
            Err(_) => index_draw(ubytes(*old(u)), len).0 is None,
        },
{
    u.choose_index(len)
}

/// Relies on `<Vec<u8> as arbitrary::Arbitrary>::arbitrary`: the drawn bytes
/// and the remaining buffer are functions of the prior buffer alone.
#[verifier::external_body]
pub(crate) fn draw_bytes(u: &mut arbitrary::Unstructured) -> (r: Result<
    Vec<u8>,
    arbitrary::Error,
>)
    ensures
        ubytes(*final(u)) == bytes_draw(ubytes(*old(u))).1,
        match r {
            Ok(v) => bytes_draw(ubytes(*old(u))).0 == Some(v@),
            Err(_) => bytes_draw(ubytes(*old(u))).0 is None,
        },
{
    u.arbitrary::<Vec<u8>>()
}

} // verus!
