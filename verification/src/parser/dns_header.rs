use vstd::prelude::*;
use super::bitshifting::{flag, get_flag, get_lsb, get_lsn, get_msb, lsb, lsn, msb};
use super::parsing_error::ParseError;
use super::result_code::ResultCode;
use super::wrapped_buffer::{
    be16, lemma_u16_round_trip, u16_at, write_outcome, Emission, WrappedBuffer,
};

verus! {

broadcast use WrappedBuffer::lemma_shape;

/// The number of bytes that a header takes on the wire.
pub const HEADER_LENGTH_BYTES: usize = 12;

/// The header of a DNS message.
#[derive(Clone, Copy, Debug, PartialEq, Eq, Structural)]
pub struct DnsHeader {
    pub id: u16,
    /// Whether the server should look the name up recursively.
    pub recursion_desired: bool,
    /// Whether the message was cut to fit the datagram.
    pub truncated_message: bool,
    /// Whether the answering server owns the domain.
    pub authoritative_answer: bool,
    /// The operation, four bits wide.
    pub opcode: u8,
    /// Whether the message is a response.
    pub response: bool,
    pub rescode: ResultCode,
    pub checking_disabled: bool,
    pub authentic_data: bool,
    /// The reserved bit.
    pub z: bool,
    /// Whether the server offers recursive lookup.
    pub recursion_available: bool,
    pub num_questions: u16,
    pub num_answers: u16,
    pub num_authorities: u16,
    pub num_additional: u16,
}

/// The value of a one-bit field.
pub open spec fn bit(set: bool) -> u8 {
    if set {
        1
    } else {
        0
    }
}

/// The first flag byte: `recursion_desired` in bit 0, `truncated_message` in
/// bit 1, `authoritative_answer` in bit 2, `opcode` in bits 3 to 6 and
/// `response` in bit 7.
pub open spec fn first_flags_byte(header: DnsHeader) -> u8 {
    bit(header.recursion_desired) | (bit(header.truncated_message) << 1) | (bit(
        header.authoritative_answer,
    ) << 2) | (lsn(header.opcode) << 3) | (bit(header.response) << 7)
}

/// The second flag byte: `rescode` in bits 0 to 3, `checking_disabled` in
/// bit 4, `authentic_data` in bit 5, `z` in bit 6 and `recursion_available`
/// in bit 7.
pub open spec fn second_flags_byte(header: DnsHeader) -> u8 {
    header.rescode.number() | (bit(header.checking_disabled) << 4) | (bit(header.authentic_data)
        << 5) | (bit(header.z) << 6) | (bit(header.recursion_available) << 7)
}

/// The twelve bytes of a header on the wire.
pub open spec fn header_bytes(header: DnsHeader) -> Seq<u8> {
    be16(header.id) + seq![first_flags_byte(header), second_flags_byte(header)] + be16(
        header.num_questions,
    ) + be16(header.num_answers) + be16(header.num_authorities) + be16(header.num_additional)
}

/// The header that the twelve bytes from `pos` on stand for.
pub open spec fn header_at(bytes: Seq<u8>, pos: int) -> DnsHeader {
    let first = bytes[pos + 2];
    let second = bytes[pos + 3];
    DnsHeader {
        id: u16_at(bytes, pos),
        recursion_desired: flag(first, 0),
        truncated_message: flag(first, 1),
        authoritative_answer: flag(first, 2),
        opcode: lsn(first >> 3),
        response: flag(first, 7),
        rescode: ResultCode::of_number(lsn(second)),
        checking_disabled: flag(second, 4),
        authentic_data: flag(second, 5),
        z: flag(second, 6),
        recursion_available: flag(second, 7),
        num_questions: u16_at(bytes, pos + 4),
        num_answers: u16_at(bytes, pos + 6),
        num_authorities: u16_at(bytes, pos + 8),
        num_additional: u16_at(bytes, pos + 10),
    }
}

/// A header whose opcode fits its four bits is read back from its twelve
/// bytes as it was written.
pub proof fn lemma_header_round_trip(header: DnsHeader, bytes: Seq<u8>, pos: int)
    requires
        header.opcode <= 15,
        0 <= pos,
        pos + 12 <= bytes.len(),
        bytes.subrange(pos, pos + 12) == header_bytes(header),
    ensures
        header_at(bytes, pos) == header,
{
    let image = header_bytes(header);
    assert forall|i: int| 0 <= i < 12 implies bytes[pos + i] == image[i] by {
        assert(bytes[pos + i] == bytes.subrange(pos, pos + 12)[i]);
    }
    assert(image.len() == 12);
    assert(image[0] == be16(header.id)[0] && image[1] == be16(header.id)[1]);
    assert(image[4] == be16(header.num_questions)[0] && image[5] == be16(header.num_questions)[1]);
    assert(image[6] == be16(header.num_answers)[0] && image[7] == be16(header.num_answers)[1]);
    assert(image[8] == be16(header.num_authorities)[0] && image[9] == be16(
        header.num_authorities,
    )[1]);
    assert(image[10] == be16(header.num_additional)[0] && image[11] == be16(
        header.num_additional,
    )[1]);
    assert(bytes[pos + 0] == image[0] && bytes[pos + 1] == image[1]);
    assert(bytes[pos + 4] == image[4] && bytes[pos + 5] == image[5]);
    assert(bytes[pos + 6] == image[6] && bytes[pos + 7] == image[7]);
    assert(bytes[pos + 8] == image[8] && bytes[pos + 9] == image[9]);
    assert(bytes[pos + 10] == image[10] && bytes[pos + 11] == image[11]);
    assert(bytes[pos + 2] == image[2] && bytes[pos + 3] == image[3]);
    assert(bytes.subrange(pos, pos + 2) =~= be16(header.id));
    assert(bytes.subrange(pos + 4, pos + 6) =~= be16(header.num_questions));
    assert(bytes.subrange(pos + 6, pos + 8) =~= be16(header.num_answers));
    assert(bytes.subrange(pos + 8, pos + 10) =~= be16(header.num_authorities));
    assert(bytes.subrange(pos + 10, pos + 12) =~= be16(header.num_additional));
    lemma_u16_round_trip(bytes, pos, header.id);
    lemma_u16_round_trip(bytes, pos + 4, header.num_questions);
    lemma_u16_round_trip(bytes, pos + 6, header.num_answers);
    lemma_u16_round_trip(bytes, pos + 8, header.num_authorities);
    lemma_u16_round_trip(bytes, pos + 10, header.num_additional);
    let first = bytes[pos + 2];
    let second = bytes[pos + 3];
    assert(first == image[2] && second == image[3]);
    lemma_first_flags(
        bit(header.recursion_desired),
        bit(header.truncated_message),
        bit(header.authoritative_answer),
        header.opcode,
        bit(header.response),
    );
    header.rescode.lemma_number_round_trip();
    lemma_second_flags(
        header.rescode.number(),
        bit(header.checking_disabled),
        bit(header.authentic_data),
        bit(header.z),
        bit(header.recursion_available),
    );
}

proof fn lemma_first_flags(rd: u8, tc: u8, aa: u8, opcode: u8, qr: u8)
    by (bit_vector)
    requires
        rd <= 1,
        tc <= 1,
        aa <= 1,
        opcode <= 15,
        qr <= 1,
    ensures
        ({
            let byte = rd | (tc << 1) | (aa << 2) | ((opcode & 0x0F) << 3) | (qr << 7);
            &&& (((byte >> 0) & 1) == 1) == (rd == 1)
            &&& (((byte >> 1) & 1) == 1) == (tc == 1)
            &&& (((byte >> 2) & 1) == 1) == (aa == 1)
            &&& (((byte >> 7) & 1) == 1) == (qr == 1)
            &&& (byte >> 3) & 0x0F == opcode
        }),
{
}

proof fn lemma_second_flags(rescode: u8, cd: u8, ad: u8, z: u8, ra: u8)
    by (bit_vector)
    requires
        rescode <= 5,
        cd <= 1,
        ad <= 1,
        z <= 1,
        ra <= 1,
    ensures
        ({
            let byte = rescode | (cd << 4) | (ad << 5) | (z << 6) | (ra << 7);
            &&& (((byte >> 4) & 1) == 1) == (cd == 1)
            &&& (((byte >> 5) & 1) == 1) == (ad == 1)
            &&& (((byte >> 6) & 1) == 1) == (z == 1)
            &&& (((byte >> 7) & 1) == 1) == (ra == 1)
            &&& byte & 0x0F == rescode
        }),
{
}

fn bit_of(set: bool) -> (b: u8)
    ensures
        b == bit(set),
{
    if set {
        1
    } else {
        0
    }
}

impl DnsHeader {
    /// The header of an empty query: every field zero or false.
    pub open spec fn empty() -> DnsHeader {
        DnsHeader {
            id: 0,
            recursion_desired: false,
            truncated_message: false,
            authoritative_answer: false,
            opcode: 0,
            response: false,
            rescode: ResultCode::NOERROR,
            checking_disabled: false,
            authentic_data: false,
            z: false,
            recursion_available: false,
            num_questions: 0,
            num_answers: 0,
            num_authorities: 0,
            num_additional: 0,
        }
    }

    /// A header with every field zero or false.
    pub fn new() -> (header: DnsHeader)
        ensures
            header == DnsHeader::empty(),
    {
        DnsHeader {
            id: 0,
            recursion_desired: false,
            truncated_message: false,
            authoritative_answer: false,
            opcode: 0,
            response: false,
            rescode: ResultCode::NOERROR,
            checking_disabled: false,
            authentic_data: false,
            z: false,
            recursion_available: false,
            num_questions: 0,
            num_answers: 0,
            num_authorities: 0,
            num_additional: 0,
        }
    }

    /// Reads the twelve bytes of a header at the buffer's position into
    /// `self`.
    pub fn read(&mut self, buffer: &mut WrappedBuffer) -> (r: Result<(), ParseError>)
        ensures
            final(buffer)@.bytes == old(buffer)@.bytes,
            old(buffer)@.has_room(12) ==> r is Ok && *final(self) == header_at(
                old(buffer)@.bytes,
                old(buffer)@.pos,
            ) && final(buffer)@.pos == old(buffer)@.pos + 12,
            !old(buffer)@.has_room(12) ==> r == Err::<(), ParseError>(ParseError::EndOfBuffer),
    {
        self.read_id(buffer)?;
        self.read_flags(buffer)?;
        self.read_record_counts(buffer)?;
        Ok(())
    }

    /// Writes the twelve bytes of the header at the buffer's position.
    pub fn write(&mut self, buffer: &mut WrappedBuffer) -> (r: Result<(), ParseError>)
        ensures
            *final(self) == *old(self),
            write_outcome(old(buffer)@, Emission::of(header_bytes(*old(self))), r, final(buffer)@),
    {
        let ghost start = buffer@;
        self.write_id(buffer)?;
        self.write_flags(buffer)?;
        self.write_record_counts(buffer)?;
        assert(buffer@.bytes =~= start.put(header_bytes(*self)).bytes);
        Ok(())
    }

    /// Reads the id at the buffer's position.
    pub fn read_id(&mut self, buffer: &mut WrappedBuffer) -> (r: Result<(), ParseError>)
        ensures
            final(buffer)@.bytes == old(buffer)@.bytes,
            old(buffer)@.has_room(2) ==> r is Ok && *final(self) == (DnsHeader {
                id: u16_at(old(buffer)@.bytes, old(buffer)@.pos),
                ..*old(self)
            }) && final(buffer)@.pos == old(buffer)@.pos + 2,
            !old(buffer)@.has_room(2) ==> r == Err::<(), ParseError>(ParseError::EndOfBuffer),
    {
        self.id = buffer.read_u16()?;
        Ok(())
    }

    /// Reads the two flag bytes at the buffer's position.
    pub fn read_flags(&mut self, buffer: &mut WrappedBuffer) -> (r: Result<(), ParseError>)
        ensures
            final(buffer)@.bytes == old(buffer)@.bytes,
            old(buffer)@.has_room(2) ==> r is Ok && ({
                let first = old(buffer)@.bytes[old(buffer)@.pos];
                let second = old(buffer)@.bytes[old(buffer)@.pos + 1];
                *final(self) == DnsHeader {
                    recursion_desired: flag(first, 0),
                    truncated_message: flag(first, 1),
                    authoritative_answer: flag(first, 2),
                    opcode: lsn(first >> 3),
                    response: flag(first, 7),
                    rescode: ResultCode::of_number(lsn(second)),
                    checking_disabled: flag(second, 4),
                    authentic_data: flag(second, 5),
                    z: flag(second, 6),
                    recursion_available: flag(second, 7),
                    ..*old(self)
                }
            }) && final(buffer)@.pos == old(buffer)@.pos + 2,
            !old(buffer)@.has_room(2) ==> r == Err::<(), ParseError>(ParseError::EndOfBuffer),
    {
        let ghost first = buffer@.bytes[buffer@.pos];
        let ghost second = buffer@.bytes[buffer@.pos + 1];
        let flags: u16 = buffer.read_u16()?;
        let most_significant_byte: u8 = get_msb(flags);
        let least_significant_byte: u8 = get_lsb(flags);
        proof {
            assert(msb(((first as u16) << 8) | (second as u16)) == first) by (bit_vector);
            assert(lsb(((first as u16) << 8) | (second as u16)) == second) by (bit_vector);
        }

        self.recursion_desired = get_flag(most_significant_byte, 0);
        self.truncated_message = get_flag(most_significant_byte, 1);
        self.authoritative_answer = get_flag(most_significant_byte, 2);
        self.response = get_flag(most_significant_byte, 7);
        self.opcode = get_lsn(most_significant_byte >> 3);

        self.rescode = ResultCode::from_number(get_lsn(least_significant_byte));
        self.checking_disabled = get_flag(least_significant_byte, 4);
        self.authentic_data = get_flag(least_significant_byte, 5);
        self.z = get_flag(least_significant_byte, 6);
        self.recursion_available = get_flag(least_significant_byte, 7);
        Ok(())
    }

    /// Reads the four section counts at the buffer's position.
    pub fn read_record_counts(&mut self, buffer: &mut WrappedBuffer) -> (r: Result<(), ParseError>)
        ensures
            final(buffer)@.bytes == old(buffer)@.bytes,
            old(buffer)@.has_room(8) ==> r is Ok && *final(self) == (DnsHeader {
                num_questions: u16_at(old(buffer)@.bytes, old(buffer)@.pos),
                num_answers: u16_at(old(buffer)@.bytes, old(buffer)@.pos + 2),
                num_authorities: u16_at(old(buffer)@.bytes, old(buffer)@.pos + 4),
                num_additional: u16_at(old(buffer)@.bytes, old(buffer)@.pos + 6),
                ..*old(self)
            }) && final(buffer)@.pos == old(buffer)@.pos + 8,
            !old(buffer)@.has_room(8) ==> r == Err::<(), ParseError>(ParseError::EndOfBuffer),
    {
        self.num_questions = buffer.read_u16()?;
        self.num_answers = buffer.read_u16()?;
        self.num_authorities = buffer.read_u16()?;
        self.num_additional = buffer.read_u16()?;
        Ok(())
    }

    /// Writes the id at the buffer's position.
    pub fn write_id(&mut self, buffer: &mut WrappedBuffer) -> (r: Result<(), ParseError>)
        ensures
            *final(self) == *old(self),
            write_outcome(old(buffer)@, Emission::of(be16(old(self).id)), r, final(buffer)@),
    {
        buffer.write_u16(self.id)
    }

    /// Writes the two flag bytes at the buffer's position.
    pub fn write_flags(&mut self, buffer: &mut WrappedBuffer) -> (r: Result<(), ParseError>)
        ensures
            *final(self) == *old(self),
            write_outcome(
                old(buffer)@,
                Emission::of(seq![first_flags_byte(*old(self)), second_flags_byte(*old(self))]),
                r,
                final(buffer)@,
            ),
    {
        let ghost start = buffer@;
        let first_flags_byte: u8 = bit_of(self.recursion_desired) | (bit_of(
            self.truncated_message,
        ) << 1) | (bit_of(self.authoritative_answer) << 2) | (get_lsn(self.opcode) << 3) | (bit_of(
            self.response,
        ) << 7);

        buffer.write_u8(first_flags_byte)?;

        let second_flags_byte: u8 = self.rescode.to_number() | (bit_of(self.checking_disabled) << 4)
            | (bit_of(self.authentic_data) << 5) | (bit_of(self.z) << 6) | (bit_of(
            self.recursion_available,
        ) << 7);

        buffer.write_u8(second_flags_byte)?;
        assert(buffer@.bytes =~= start.put(seq![first_flags_byte, second_flags_byte]).bytes);
        Ok(())
    }

    /// Writes the four section counts at the buffer's position.
    pub fn write_record_counts(&mut self, buffer: &mut WrappedBuffer) -> (r: Result<(), ParseError>)
        ensures
            *final(self) == *old(self),
            write_outcome(
                old(buffer)@,
                Emission::of(
                    be16(old(self).num_questions) + be16(old(self).num_answers) + be16(
                        old(self).num_authorities,
                    ) + be16(old(self).num_additional),
                ),
                r,
                final(buffer)@,
            ),
    {
        let ghost start = buffer@;
        buffer.write_u16(self.num_questions)?;
        buffer.write_u16(self.num_answers)?;
        buffer.write_u16(self.num_authorities)?;
        buffer.write_u16(self.num_additional)?;
        assert(buffer@.bytes =~= start.put(
            be16(self.num_questions) + be16(self.num_answers) + be16(self.num_authorities) + be16(
                self.num_additional,
            ),
        ).bytes);
        Ok(())
    }
}

} // verus!
