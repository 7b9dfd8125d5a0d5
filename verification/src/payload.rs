//! Frame payloads are `bytes::Bytes` buffers; this module tells Verus what
//! they hold and wraps the few `Bytes` operations the protocol core uses.
use bytes::Bytes;
use vstd::prelude::*;

verus! {

#[verifier::external_type_specification]
#[verifier::external_body]
pub struct ExBytes(Bytes);

/// The bytes a `bytes::Bytes` buffer holds, in order.
pub uninterp spec fn bytes_view(b: Bytes) -> Seq<u8>;

/// `<Bytes as AsRef<[u8]>>::as_ref`: the slice it returns is the buffer's
/// content.
#[verifier::external_body]
pub(crate) fn bytes_as_slice(b: &Bytes) -> (s: &[u8])
    ensures
        s@ == bytes_view(*b),
{
    b.as_ref()
}

/// `Bytes::copy_from_slice`: a new buffer holding a copy of `data`.
#[verifier::external_body]
pub(crate) fn bytes_copy_from_slice(data: &[u8]) -> (b: Bytes)
    ensures
        bytes_view(b) == data@,
{
    Bytes::copy_from_slice(data)
}

/// `<Bytes as From<Vec<u8>>>::from`: a buffer holding the vector's bytes.
#[verifier::external_body]
pub(crate) fn bytes_from_vec(v: Vec<u8>) -> (b: Bytes)
    ensures
        bytes_view(b) == v@,
{
    Bytes::from(v)
}

/// `<Bytes as Clone>::clone`: another handle on the same bytes.
pub assume_specification[ <Bytes as Clone>::clone ](b: &Bytes) -> (c: Bytes)
    ensures
        bytes_view(c) == bytes_view(*b),
;

} // verus!
