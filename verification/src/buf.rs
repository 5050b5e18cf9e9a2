//! Byte buffers of the `bytes` crate and the text they carry.

use vstd::prelude::*;
use vstd::utf8::*;
use bytes::Bytes;

verus! {

/// Lets `bytes::Bytes` stand in signatures and fields; its contents are
/// reached only through `bytes_contents`.
#[verifier::external_type_specification]
#[verifier::external_body]
pub struct ExBytes(Bytes);

/// The bytes that a `Bytes` buffer holds, in order.
pub uninterp spec fn bytes_contents(b: Bytes) -> Seq<u8>;

/// `Bytes::from(&'static [u8])`: the buffer holds exactly the bytes of the
/// slice (the crate builds it with `Bytes::from_static`, which points at them).
#[verifier::external_body]
pub(crate) fn bytes_from_static(slice: &'static [u8]) -> (b: Bytes)
    ensures
        bytes_contents(b) == slice@,
{
    Bytes::from(slice)
}

/// `Bytes::from(String)`: the buffer holds the string's UTF-8 encoding
/// (the crate takes `String::into_bytes`).
#[verifier::external_body]
pub(crate) fn bytes_from_string(s: String) -> (b: Bytes)
    ensures
        bytes_contents(b) == encode_utf8(s@),
{
    Bytes::from(s)
}

/// `<Bytes as Deref>::deref` (written `&b[..]`): a slice of exactly the
/// bytes the buffer holds.
#[verifier::external_body]
pub(crate) fn bytes_as_slice(b: &Bytes) -> (s: &[u8])
    ensures
        s@ == bytes_contents(*b),
{
    &b[..]
}

/// `std::str::from_utf8`: succeeds exactly on valid UTF-8, and then the
/// string slice's encoding is the input itself.
#[verifier::external_body]
pub(crate) fn str_from_utf8(v: &[u8]) -> (r: Option<&str>)
    ensures
        r is Some <==> valid_utf8(v@),
        r matches Some(s) ==> encode_utf8(s@) == v@,
{
    std::str::from_utf8(v).ok()
}

} // verus!
