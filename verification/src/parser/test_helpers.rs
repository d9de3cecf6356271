//! Buffers that stand where a test wants to start reading.

use vstd::prelude::*;
use super::dns_header::HEADER_LENGTH_BYTES;
use super::wrapped_buffer::{datagram_image, WrappedBuffer};

verus! {

/// The number of bytes that one section count of the header takes.
pub const RECORD_COUNT_SIZE_BYTES: usize = 2;

/// A buffer with `datagram` in it, at the start of the message.
pub fn get_buffer_at_beginning(datagram: &[u8]) -> (buffer: WrappedBuffer)
    ensures
        buffer@.pos == 0,
        buffer@.bytes == datagram_image(datagram@),
{
    WrappedBuffer::from_bytes(datagram)
}

/// A buffer with `datagram` in it, behind the header, where the first
/// question stands.
pub fn get_buffer_at_question_section(datagram: &[u8]) -> (buffer: WrappedBuffer)
    ensures
        buffer@.pos == HEADER_LENGTH_BYTES,
        buffer@.bytes == datagram_image(datagram@),
{
    let mut buffer = get_buffer_at_beginning(datagram);
    let _ = buffer.advance(HEADER_LENGTH_BYTES);
    buffer
}

} // verus!
