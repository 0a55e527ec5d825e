//! Byte buffers shared between frames and commands.
//!
//! The buffers are [`bytes::Bytes`] values. The verifier cannot look inside
//! one, so this module names what a buffer holds and states, for each
//! operation the crate uses, how that operation acts on the contents.

use bytes::Bytes;
use vstd::prelude::*;

verus! {

/// `bytes::Bytes`, of which the verifier is told the name and nothing else.
#[verifier::external_type_specification]
#[verifier::external_body]
pub struct ExBytes(bytes::Bytes);

/// The bytes that a buffer holds, in order.
pub uninterp spec fn contents(b: Bytes) -> Seq<u8>;

/// `Bytes::from(Vec<u8>)`: the buffer takes over the vector and holds exactly
/// its bytes.
#[verifier::external_body]
pub(crate) fn from_vec(v: Vec<u8>) -> (b: Bytes)
    ensures
        contents(b) == v@,
{
    Bytes::from(v)
}

/// `Bytes::from(&'static [u8])`: the buffer points at the static slice and
/// holds exactly its bytes.
#[verifier::external_body]
pub(crate) fn from_static(bytes: &'static [u8]) -> (b: Bytes)
    ensures
        contents(b) == bytes@,
{
    Bytes::from(bytes)
}

/// `Bytes::clone`: the new handle shares the storage of the old one and shows
/// the same bytes.
pub assume_specification[ <bytes::Bytes as Clone>::clone ](b: &bytes::Bytes) -> (c: bytes::Bytes)
    ensures
        contents(c) == contents(*b),
;

/// `Bytes::as_ref`: the bytes of the buffer, read in place as a slice.
#[verifier::external_body]
pub(crate) fn as_slice(b: &Bytes) -> (s: &[u8])
    ensures
        s@ == contents(*b),
{
    b.as_ref()
}

} // verus!
