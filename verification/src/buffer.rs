//! Shared byte buffers.

use vstd::prelude::*;

verus! {

/// The buffer type of the bytes crate.
#[verifier::external_type_specification]
#[verifier::external_body]
pub struct ExBytes(bytes::Bytes);

/// The bytes that a buffer holds.
pub uninterp spec fn buffer_contents(buffer: bytes::Bytes) -> Seq<u8>;

/// `bytes::Bytes::copy_from_slice` makes a buffer that holds a copy of the bytes of `data`.
pub assume_specification[ bytes::Bytes::copy_from_slice ](data: &[u8]) -> (buffer: bytes::Bytes)
    ensures
        buffer_contents(buffer) == data@,
;

/// `bytes::Bytes::len` is the number of bytes that the buffer holds.
pub assume_specification[ bytes::Bytes::len ](buffer: &bytes::Bytes) -> (len: usize)
    ensures
        len == buffer_contents(*buffer).len(),
;

} // verus!
