//! The byte buffers of `arrow_buffer` and `bytes`, and the Arrow values that pass through a decoder.
//!
//! Everything in this module is trusted: it declares types of other crates and says what
//! their functions do.
use arrow_buffer::{Buffer, MutableBuffer};
use bytes::Bytes;
use vstd::prelude::*;

verus! {

/// `arrow_buffer::Buffer`: shared bytes.
#[verifier::external_type_specification]
#[verifier::external_body]
pub struct ExBuffer(arrow_buffer::Buffer);

/// `arrow_buffer::MutableBuffer`: bytes that are being gathered.
#[verifier::external_type_specification]
#[verifier::external_body]
pub struct ExMutableBuffer(arrow_buffer::MutableBuffer);

/// `bytes::Bytes`: shared bytes.
#[verifier::external_type_specification]
#[verifier::external_body]
pub struct ExBytes(bytes::Bytes);

/// `arrow_schema::Schema`, which is handed on as it is.
#[verifier::external_type_specification]
#[verifier::external_body]
pub struct ExSchema(arrow_schema::Schema);

/// `arrow_schema::ArrowError`, which is handed on as it is.
#[verifier::external_type_specification]
#[verifier::external_body]
pub struct ExArrowError(arrow_schema::ArrowError);

/// The bytes that a [`Buffer`] holds.
pub uninterp spec fn buffer_bytes(buffer: Buffer) -> Seq<u8>;

/// The bytes that a [`MutableBuffer`] holds.
pub uninterp spec fn scratch_bytes(scratch: MutableBuffer) -> Seq<u8>;

/// The bytes that a [`Bytes`] holds.
pub uninterp spec fn shared_bytes(bytes: Bytes) -> Seq<u8>;

/// The largest length to which a [`MutableBuffer`] can always grow: growing at most doubles the
/// allocation or rounds the length up, and an allocation is at most `isize::MAX` bytes with its
/// alignment, of at most 256, taken in.
pub open spec fn max_scratch_len() -> int {
    (isize::MAX - 256) / 2
}

/// `Buffer::len`: the number of bytes held.
pub assume_specification[ Buffer::len ](buffer: &Buffer) -> (len: usize)
    ensures
        len == buffer_bytes(*buffer).len(),
;

/// `Buffer::is_empty`: whether no bytes are held.
pub assume_specification[ Buffer::is_empty ](buffer: &Buffer) -> (empty: bool)
    ensures
        empty == (buffer_bytes(*buffer).len() == 0),
;

/// `Buffer::as_slice`: the bytes held.
pub assume_specification[ Buffer::as_slice ](buffer: &Buffer) -> (bytes: &[u8])
    ensures
        bytes@ == buffer_bytes(*buffer),
;

/// `Buffer::advance`: drops the first `offset` bytes. It panics where there are fewer.
pub assume_specification[ Buffer::advance ](buffer: &mut Buffer, offset: usize)
    requires
        offset <= buffer_bytes(*old(buffer)).len(),
    ensures
        buffer_bytes(*final(buffer)) == buffer_bytes(*old(buffer)).skip(offset as int),
;

/// `Buffer::slice_with_length`: the `length` bytes from `offset` on. It shares the memory of
/// `buffer`, and panics where `buffer` holds fewer bytes. Of the sharing, which is a matter of
/// addresses, nothing is stated.
pub assume_specification[ Buffer::slice_with_length ](
    buffer: &Buffer,
    offset: usize,
    length: usize,
) -> (slice: Buffer)
    requires
        offset + length <= buffer_bytes(*buffer).len(),
    ensures
        buffer_bytes(slice) == buffer_bytes(*buffer).subrange(offset as int, offset + length),
;

/// `Buffer::clone`: another handle on the same bytes.
#[verifier::external_body]
pub(crate) fn share_buffer(buffer: &Buffer) -> (shared: Buffer)
    ensures
        buffer_bytes(shared) == buffer_bytes(*buffer),
{
    buffer.clone()
}

/// `Buffer::from` on a [`Bytes`]: a buffer on the bytes held, without a copy.
#[verifier::external_body]
pub(crate) fn buffer_from_bytes(bytes: Bytes) -> (buffer: Buffer)
    ensures
        buffer_bytes(buffer) == shared_bytes(bytes),
{
    Buffer::from(bytes)
}

/// `MutableBuffer::len`: the number of bytes held.
pub assume_specification[ MutableBuffer::len ](scratch: &MutableBuffer) -> (len: usize)
    ensures
        len == scratch_bytes(*scratch).len(),
;

/// `MutableBuffer::is_empty`: whether no bytes are held.
pub assume_specification[ MutableBuffer::is_empty ](scratch: &MutableBuffer) -> (empty: bool)
    ensures
        empty == (scratch_bytes(*scratch).len() == 0),
;

/// `MutableBuffer::default`: a buffer that holds nothing.
#[verifier::external_body]
pub(crate) fn empty_scratch() -> (scratch: MutableBuffer)
    ensures
        scratch_bytes(scratch) == Seq::<u8>::empty(),
{
    MutableBuffer::default()
}

/// `MutableBuffer::extend_from_slice` on bytes: appends them. It panics where the allocation
/// would pass its largest size, which `requires` rules out, and where memory runs out.
#[verifier::external_body]
pub(crate) fn extend_scratch(scratch: &mut MutableBuffer, items: &[u8])
    requires
        scratch_bytes(*old(scratch)).len() + items@.len() <= max_scratch_len(),
    ensures
        scratch_bytes(*final(scratch)) == scratch_bytes(*old(scratch)) + items@,
{
    scratch.extend_from_slice(items)
}

/// `Buffer::from` on a [`MutableBuffer`]: a buffer that holds the bytes gathered.
#[verifier::external_body]
pub(crate) fn freeze_scratch(scratch: MutableBuffer) -> (buffer: Buffer)
    ensures
        buffer_bytes(buffer) == scratch_bytes(scratch),
{
    Buffer::from(scratch)
}

} // verus!
