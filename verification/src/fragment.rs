//! Fragments as the transport hands them over.

use vstd::prelude::*;

verus! {

/// `bytes::Bytes`, the owned run of bytes in which the transport hands over
/// a fragment. It is carried through as it is; what it holds is read
/// through `fragment_view`.
#[verifier::external_type_specification]
#[verifier::external_body]
pub struct ExBytes(bytes::Bytes);

/// The bytes that a fragment holds, in order.
pub uninterp spec fn fragment_view(fragment: bytes::Bytes) -> Seq<u8>;

/// Calls `Bytes::as_ref`: the fragment's bytes as a slice. The slice
/// holds exactly the bytes of the fragment, in their order.
#[verifier::external_body]
pub(crate) fn fragment_bytes(fragment: &bytes::Bytes) -> (bytes: &[u8])
    ensures
        bytes@ == fragment_view(*fragment),
{
    fragment.as_ref()
}

/// Calls `Bytes::clone`: a second handle on the same bytes. The copy holds
/// what the fragment holds.
#[verifier::external_body]
pub(crate) fn fragment_clone(fragment: &bytes::Bytes) -> (copy: bytes::Bytes)
    ensures
        fragment_view(copy) == fragment_view(*fragment),
{
    fragment.clone()
}

} // verus!
