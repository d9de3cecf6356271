use vstd::prelude::*;
use super::bitshifting::{get_lsb, get_msb, get_nth_octal, lsb, msb, nth_octal};
use super::parsing_error::ParseError;

verus! {

/// The size of a datagram buffer: the largest DNS message that UDP carries.
pub const BUFFER_SIZE: usize = 512;

/// The mathematical model of a buffer: its bytes and its position.
pub struct Cursor {
    pub bytes: Seq<u8>,
    pub pos: int,
}

/// What an encoder sends to a buffer: the bytes it emits, in order, and the
/// fault that stops it after them, if any.
pub struct Emission {
    pub bytes: Seq<u8>,
    pub fault: Option<ParseError>,
}

/// The 16-bit number stored in network byte order at `pos`.
pub open spec fn u16_at(bytes: Seq<u8>, pos: int) -> u16 {
    ((bytes[pos] as u16) << 8) | (bytes[pos + 1] as u16)
}

/// The 32-bit number stored in network byte order at `pos`.
pub open spec fn u32_at(bytes: Seq<u8>, pos: int) -> u32 {
    ((u16_at(bytes, pos) as u32) << 16) | (u16_at(bytes, pos + 2) as u32)
}

/// The two bytes of `value`, most significant first.
pub open spec fn be16(value: u16) -> Seq<u8> {
    seq![msb(value), lsb(value)]
}

/// The four bytes of `value`, most significant first.
pub open spec fn be32(value: u32) -> Seq<u8> {
    seq![nth_octal(value, 1), nth_octal(value, 2), nth_octal(value, 3), nth_octal(value, 4)]
}

/// `bytes` with `data` laid over it from index `pos` on.
pub open spec fn overlay(bytes: Seq<u8>, pos: int, data: Seq<u8>) -> Seq<u8> {
    Seq::new(
        bytes.len(),
        |i: int|
            if pos <= i < pos + data.len() {
                data[i - pos]
            } else {
                bytes[i]
            },
    )
}

/// The first 512 bytes of `data`, followed by zeros up to 512 bytes.
pub open spec fn datagram_image(data: Seq<u8>) -> Seq<u8> {
    Seq::new(
        BUFFER_SIZE as nat,
        |i: int|
            if i < data.len() {
                data[i]
            } else {
                0u8
            },
    )
}

impl Emission {
    /// An emission of `bytes` that ends without a fault.
    pub open spec fn of(bytes: Seq<u8>) -> Emission {
        Emission { bytes, fault: None }
    }

    /// This emission followed by `next`, which is not started when this one
    /// ends in a fault.
    pub open spec fn followed_by(self, next: Emission) -> Emission {
        if self.fault is Some {
            self
        } else {
            Emission { bytes: self.bytes + next.bytes, fault: next.fault }
        }
    }

    /// The emissions of `parts`, one after the other.
    pub open spec fn chain(parts: Seq<Emission>) -> Emission
        decreases parts.len(),
    {
        if parts.len() == 0 {
            Emission::of(Seq::empty())
        } else {
            parts[0].followed_by(Emission::chain(parts.skip(1)))
        }
    }
}

impl Cursor {
    /// Whether `len` bytes can be read or written at the position.
    pub open spec fn has_room(self, len: int) -> bool {
        self.pos + len <= BUFFER_SIZE
    }

    /// The cursor after `data` was written at the position.
    pub open spec fn put(self, data: Seq<u8>) -> Cursor {
        Cursor { bytes: overlay(self.bytes, self.pos, data), pos: self.pos + data.len() }
    }

    /// The outcome of sending `emission` to the buffer byte by byte: the
    /// first byte that does not fit is the end of the buffer, a fault comes
    /// after all the bytes before it were written.
    pub open spec fn written(self, emission: Emission) -> Result<Cursor, ParseError> {
        if emission.bytes.len() > 0 && !self.has_room(emission.bytes.len() as int) {
            Err(ParseError::EndOfBuffer)
        } else if let Some(fault) = emission.fault {
            Err(fault)
        } else {
            Ok(self.put(emission.bytes))
        }
    }
}

/// A 16-bit number is read back from its two bytes, and the most significant
/// byte is the one at the lower index.
pub proof fn lemma_u16_round_trip(bytes: Seq<u8>, pos: int, value: u16)
    requires
        0 <= pos,
        pos + 2 <= bytes.len(),
        bytes.subrange(pos, pos + 2) == be16(value),
    ensures
        u16_at(bytes, pos) == value,
        bytes[pos] == msb(value),
        bytes[pos + 1] == lsb(value),
{
    assert(bytes[pos] == bytes.subrange(pos, pos + 2)[0]);
    assert(bytes[pos + 1] == bytes.subrange(pos, pos + 2)[1]);
    assert((((value >> 8) as u8) as u16) << 8 | (((value & 0xFF) as u8) as u16) == value)
        by (bit_vector);
}

/// A 32-bit number is read back from its four bytes, and the most
/// significant byte is the one at the lowest index.
pub proof fn lemma_u32_round_trip(bytes: Seq<u8>, pos: int, value: u32)
    requires
        0 <= pos,
        pos + 4 <= bytes.len(),
        bytes.subrange(pos, pos + 4) == be32(value),
    ensures
        u32_at(bytes, pos) == value,
        bytes[pos] == nth_octal(value, 1),
        bytes[pos + 3] == nth_octal(value, 4),
{
    let part = bytes.subrange(pos, pos + 4);
    assert(bytes[pos] == part[0]);
    assert(bytes[pos + 1] == part[1]);
    assert(bytes[pos + 2] == part[2]);
    assert(bytes[pos + 3] == part[3]);
    let a = bytes[pos];
    let b = bytes[pos + 1];
    let c = bytes[pos + 2];
    let d = bytes[pos + 3];
    assert(a == ((value >> 24u32) & 0xFF) as u8 && b == ((value >> 16u32) & 0xFF) as u8 && c == ((
    value >> 8u32) & 0xFF) as u8 && d == ((value >> 0u32) & 0xFF) as u8 ==> ((((a as u16) << 8) | (
    b as u16)) as u32) << 16 | ((((c as u16) << 8) | (d as u16)) as u32) == value) by (bit_vector);
}

/// What `write_u8`, `write_u16` and `write_u32` leave in a buffer, `read_u8`,
/// `read_u16` and `read_u32` find there once the position is set back.
pub proof fn lemma_write_then_read(cursor: Cursor, byte: u8, short: u16, long: u32)
    requires
        cursor.bytes.len() == BUFFER_SIZE,
        0 <= cursor.pos,
    ensures
        cursor.has_room(1) ==> cursor.put(seq![byte]).bytes[cursor.pos] == byte,
        cursor.has_room(2) ==> u16_at(cursor.put(be16(short)).bytes, cursor.pos) == short,
        cursor.has_room(2) ==> cursor.put(be16(short)).bytes[cursor.pos] == msb(short),
        cursor.has_room(4) ==> u32_at(cursor.put(be32(long)).bytes, cursor.pos) == long,
        cursor.has_room(4) ==> cursor.put(be32(long)).bytes[cursor.pos] == nth_octal(long, 1),
{
    if cursor.has_room(2) {
        let after = cursor.put(be16(short)).bytes;
        assert(after.subrange(cursor.pos, cursor.pos + 2) =~= be16(short));
        lemma_u16_round_trip(after, cursor.pos, short);
    }
    if cursor.has_room(4) {
        let after = cursor.put(be32(long)).bytes;
        assert(after.subrange(cursor.pos, cursor.pos + 4) =~= be32(long));
        lemma_u32_round_trip(after, cursor.pos, long);
    }
}

/// Sending one emission after another is sending the first, and then the
/// second to the buffer that the first one left.
pub proof fn lemma_written_then(cursor: Cursor, first: Emission, second: Emission)
    requires
        0 <= cursor.pos,
    ensures
        cursor.written(first.followed_by(second)) == match cursor.written(first) {
            Ok(middle) => middle.written(second),
            Err(fault) => Err(fault),
        },
{
    if let Ok(middle) = cursor.written(first) {
        if let Ok(end) = middle.written(second) {
            assert(cursor.put(first.bytes + second.bytes).bytes =~= middle.put(second.bytes).bytes);
        }
    }
}

/// Emissions in a row may be grouped either way.
pub proof fn lemma_then_associative(a: Emission, b: Emission, c: Emission)
    ensures
        a.followed_by(b).followed_by(c) == a.followed_by(b.followed_by(c)),
{
    if a.fault is None && b.fault is None {
        assert((a.bytes + b.bytes) + c.bytes =~= a.bytes + (b.bytes + c.bytes));
    }
}

/// Writing nothing leaves the cursor as it is.
pub proof fn lemma_written_nothing(cursor: Cursor)
    requires
        cursor.bytes.len() == BUFFER_SIZE,
    ensures
        cursor.written(Emission::of(Seq::empty())) == Ok::<Cursor, ParseError>(cursor),
{
    assert(cursor.put(Seq::empty()).bytes =~= cursor.bytes);
}

/// Whether a write that returned `result` and left the buffer as `after` did
/// to `before` what `emission` asks for.
pub open spec fn write_outcome<T>(
    before: Cursor,
    emission: Emission,
    result: Result<T, ParseError>,
    after: Cursor,
) -> bool {
    match before.written(emission) {
        Ok(cursor) => result is Ok && after == cursor,
        Err(fault) => result is Err && result->Err_0 == fault,
    }
}

/// A fixed datagram buffer with a position at which typed reads and writes
/// take place.
pub struct WrappedBuffer {
    raw_buffer: [u8; BUFFER_SIZE],
    position: usize,
}

impl View for WrappedBuffer {
    type V = Cursor;

    closed spec fn view(&self) -> Cursor {
        Cursor { bytes: self.raw_buffer@, pos: self.position as int }
    }
}

impl WrappedBuffer {
    /// Every buffer holds exactly 512 bytes, and its position is never
    /// negative.
    pub broadcast proof fn lemma_shape(&self)
        ensures
            #![trigger self@]
            self@.bytes.len() == BUFFER_SIZE,
            self@.pos >= 0,
            self@.pos <= usize::MAX,
    {
    }

    /// A zero-filled buffer at position 0.
    pub fn new() -> (buffer: WrappedBuffer)
        ensures
            buffer@.pos == 0,
            buffer@.bytes == datagram_image(Seq::empty()),
    {
        let buffer = WrappedBuffer { raw_buffer: [0; BUFFER_SIZE], position: 0 };
        assert(buffer@.bytes =~= datagram_image(Seq::empty()));
        buffer
    }

    /// A buffer at position 0 that holds the first 512 bytes of `data`,
    /// followed by zeros.
    pub fn from_bytes(data: &[u8]) -> (buffer: WrappedBuffer)
        ensures
            buffer@.pos == 0,
            buffer@.bytes == datagram_image(data@),
    {
        let mut buffer = WrappedBuffer { raw_buffer: [0; BUFFER_SIZE], position: 0 };
        let mut i: usize = 0;
        while i < BUFFER_SIZE && i < data.len()
            invariant
                i <= BUFFER_SIZE,
                i <= data@.len(),
                buffer.position == 0,
                forall|j: int| 0 <= j < i ==> buffer.raw_buffer@[j] == data@[j],
                forall|j: int| i <= j < BUFFER_SIZE ==> buffer.raw_buffer@[j] == 0u8,
            decreases BUFFER_SIZE - i,
        {
            buffer.raw_buffer[i] = data[i];
            i = i + 1;
        }
        assert(buffer@.bytes =~= datagram_image(data@));
        buffer
    }

    /// Reads the byte at the position and steps over it.
    pub fn read_u8(&mut self) -> (r: Result<u8, ParseError>)
        ensures
            final(self)@.bytes == old(self)@.bytes,
            old(self)@.has_room(1) ==> r == Ok::<u8, ParseError>(old(self)@.bytes[old(self)@.pos])
                && final(self)@.pos == old(self)@.pos + 1,
            !old(self)@.has_room(1) ==> r == Err::<u8, ParseError>(ParseError::EndOfBuffer)
                && final(self)@.pos == old(self)@.pos,
    {
        if self.position >= BUFFER_SIZE {
            return Err(ParseError::EndOfBuffer);
        }
        let result: u8 = self.raw_buffer[self.position];
        self.position = self.position + 1;
        Ok(result)
    }

    /// Reads two bytes as a number in network byte order.
    pub fn read_u16(&mut self) -> (r: Result<u16, ParseError>)
        ensures
            final(self)@.bytes == old(self)@.bytes,
            old(self)@.has_room(2) ==> r == Ok::<u16, ParseError>(
                u16_at(old(self)@.bytes, old(self)@.pos),
            ) && final(self)@.pos == old(self)@.pos + 2,
            !old(self)@.has_room(2) ==> r == Err::<u16, ParseError>(ParseError::EndOfBuffer),
    {
        let high: u8 = self.read_u8()?;
        let low: u8 = self.read_u8()?;
        Ok((high as u16) << 8 | low as u16)
    }

    /// Reads four bytes as a number in network byte order.
    pub fn read_u32(&mut self) -> (r: Result<u32, ParseError>)
        ensures
            final(self)@.bytes == old(self)@.bytes,
            old(self)@.has_room(4) ==> r == Ok::<u32, ParseError>(
                u32_at(old(self)@.bytes, old(self)@.pos),
            ) && final(self)@.pos == old(self)@.pos + 4,
            !old(self)@.has_room(4) ==> r == Err::<u32, ParseError>(ParseError::EndOfBuffer),
    {
        let high: u16 = self.read_u16()?;
        let low: u16 = self.read_u16()?;
        Ok((high as u32) << 16 | low as u32)
    }

    /// Overwrites the byte at the position and steps over it.
    pub fn write_u8(&mut self, value: u8) -> (r: Result<(), ParseError>)
        ensures
            write_outcome(old(self)@, Emission::of(seq![value]), r, final(self)@),
            r is Err ==> final(self)@ == old(self)@,
    {
        if self.position >= BUFFER_SIZE {
            return Err(ParseError::EndOfBuffer);
        }
        self.raw_buffer[self.position] = value;
        self.position = self.position + 1;
        assert(self@.bytes =~= overlay(old(self)@.bytes, old(self)@.pos, seq![value]));
        Ok(())
    }

    /// Writes `value` as two bytes, the most significant first.
    pub fn write_u16(&mut self, value: u16) -> (r: Result<(), ParseError>)
        ensures
            write_outcome(old(self)@, Emission::of(be16(value)), r, final(self)@),
    {
        self.write_u8(get_msb(value))?;
        self.write_u8(get_lsb(value))?;
        assert(self@.bytes =~= overlay(old(self)@.bytes, old(self)@.pos, be16(value)));
        Ok(())
    }

    /// Writes `value` as four bytes, the most significant first.
    pub fn write_u32(&mut self, value: u32) -> (r: Result<(), ParseError>)
        ensures
            write_outcome(old(self)@, Emission::of(be32(value)), r, final(self)@),
    {
        let mut i: usize = 1;
        while i <= 4
            invariant
                1 <= i <= 5,
                self@.pos == old(self)@.pos + (i - 1),
                i > 1 ==> self@.pos <= BUFFER_SIZE,
                self@.bytes == overlay(
                    old(self)@.bytes,
                    old(self)@.pos,
                    be32(value).take(i - 1),
                ),
            decreases 5 - i,
        {
            self.write_u8(get_nth_octal(value, i))?;
            assert(self@.bytes =~= overlay(old(self)@.bytes, old(self)@.pos, be32(value).take(i as int)));
            i = i + 1;
        }
        assert(be32(value).take(4) =~= be32(value));
        Ok(())
    }

    /// The `len` bytes that start at `start`.
    pub fn get_slice(&self, start: usize, len: usize) -> (r: Result<&[u8], ParseError>)
        ensures
            start + len <= BUFFER_SIZE ==> r is Ok && r->Ok_0@ == self@.bytes.subrange(
                start as int,
                start + len,
            ),
            start + len > BUFFER_SIZE ==> r == Err::<&[u8], ParseError>(ParseError::EndOfBuffer),
    {
        if start > BUFFER_SIZE || len > BUFFER_SIZE - start {
            return Err(ParseError::EndOfBuffer);
        }
        let end: usize = start + len;
        Ok(&self.raw_buffer[start..end])
    }

    /// The whole buffer, to be filled in place.
    pub fn as_slice(&mut self) -> (r: Result<&mut [u8], ParseError>)
        ensures
            r is Ok,
            r->Ok_0@ == old(self)@.bytes,
            final(self)@.bytes == final(r->Ok_0)@,
            final(self)@.pos == old(self)@.pos,
    {
        Ok(&mut self.raw_buffer)
    }

    /// Moves the position forward by `num_steps`, past the end of the buffer
    /// if need be.
    pub fn advance(&mut self, num_steps: usize) -> (r: Result<(), ParseError>)
        requires
            old(self)@.pos + num_steps <= usize::MAX,
        ensures
            r is Ok,
            final(self)@.bytes == old(self)@.bytes,
            final(self)@.pos == old(self)@.pos + num_steps,
    {
        self.position = self.position + num_steps;
        Ok(())
    }

    /// Sets the position, which may lie past the end of the buffer.
    pub fn seek(&mut self, pos: usize) -> (r: Result<(), ParseError>)
        ensures
            r is Ok,
            final(self)@.bytes == old(self)@.bytes,
            final(self)@.pos == pos,
    {
        self.position = pos;
        Ok(())
    }

    /// The byte at index `pos`; the position stays.
    pub fn peek(&self, pos: usize) -> (r: Result<u8, ParseError>)
        ensures
            pos < BUFFER_SIZE ==> r == Ok::<u8, ParseError>(self@.bytes[pos as int]),
            pos >= BUFFER_SIZE ==> r == Err::<u8, ParseError>(ParseError::EndOfBuffer),
    {
        if pos >= BUFFER_SIZE {
            return Err(ParseError::EndOfBuffer);
        }
        Ok(self.raw_buffer[pos])
    }

    /// The position.
    pub fn pos(&self) -> (position: usize)
        ensures
            position == self@.pos,
    {
        self.position
    }
}

} // verus!
