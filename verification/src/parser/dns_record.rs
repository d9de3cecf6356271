use vstd::prelude::*;
use super::bitshifting::{get_nth_octal, nth_octal};
use super::dns_question::CLASS_IN;
use super::parsing_error::ParseError;
use super::query_name_parser::{
    name_emission, name_end, name_labels, name_text, QueryName, QueryNameParser,
};
use super::query_type::QueryType;
use super::wrapped_buffer::{
    be16, be32, lemma_written_then, u16_at, u32_at, write_outcome, Emission, WrappedBuffer,
    BUFFER_SIZE,
};

verus! {

broadcast use WrappedBuffer::lemma_shape;

/// An address of the Internet Protocol, version 4.
#[derive(Debug, Clone, Copy, PartialEq, Eq, Hash, PartialOrd, Ord)]
pub struct Ipv4Addr {
    /// The four octets, in the order in which they are written.
    pub octets: [u8; 4],
}

impl Ipv4Addr {
    /// The address `a.b.c.d`.
    pub fn new(a: u8, b: u8, c: u8, d: u8) -> (address: Ipv4Addr)
        ensures
            address.octets@ == seq![a, b, c, d],
    {
        Ipv4Addr { octets: [a, b, c, d] }
    }

    /// The address `0.0.0.0`.
    pub fn unspecified() -> (address: Ipv4Addr)
        ensures
            address.octets@ == seq![0u8, 0u8, 0u8, 0u8],
    {
        Ipv4Addr { octets: [0, 0, 0, 0] }
    }

    /// The four octets of the address.
    pub fn octets(&self) -> (octets: [u8; 4])
        ensures
            octets == self.octets,
    {
        self.octets
    }
}

/// A resource record.
#[derive(Debug, Clone, PartialEq, Eq, Hash, PartialOrd, Ord)]
pub enum DnsRecord {
    /// A record of a type that the codec does not read: its data is passed
    /// over and not kept.
    UNKNOWN { domain: String, query_type: u16, data_length: u16, ttl: u32 },
    /// A host address.
    A { domain: String, address: Ipv4Addr, ttl: u32 },
}

/// The mathematical model of a record.
pub enum RecordView {
    UNKNOWN { domain: Seq<char>, query_type: u16, data_length: u16, ttl: u32 },
    A { domain: Seq<char>, address: Seq<u8>, ttl: u32 },
}

impl View for DnsRecord {
    type V = RecordView;

    open spec fn view(&self) -> RecordView {
        match *self {
            DnsRecord::UNKNOWN { domain, query_type, data_length, ttl } => RecordView::UNKNOWN {
                domain: domain@,
                query_type,
                data_length,
                ttl,
            },
            DnsRecord::A { domain, address, ttl } => RecordView::A {
                domain: domain@,
                address: address.octets@,
                ttl,
            },
        }
    }
}

/// What a record sends to the buffer. An address record sends its name,
/// type 1, the class of the Internet, its time to live, a data length of 4
/// and the four octets; a record of unknown type sends nothing.
pub open spec fn record_emission(record: RecordView) -> Emission {
    match record {
        RecordView::A { domain, address, ttl } => name_emission(domain).followed_by(
            Emission::of(be16(1) + be16(CLASS_IN) + be32(ttl) + be16(4) + address),
        ),
        RecordView::UNKNOWN { .. } => Emission::of(Seq::empty()),
    }
}

/// The record that stands at `pos`, and the index behind it: a name, a type,
/// a class, which is not kept, a time to live and a data length; then the
/// four octets of an address where the type is 1, and otherwise as many
/// bytes as the data length says, which are passed over.
pub open spec fn record_at(bytes: Seq<u8>, pos: int) -> Result<(RecordView, int), ParseError> {
    match name_labels(bytes, pos, 0) {
        Err(fault) => Err(fault),
        Ok(labels) => {
            let end = name_end(bytes, pos);
            let domain = name_text(labels);
            if end + 10 > BUFFER_SIZE {
                Err(ParseError::EndOfBuffer)
            } else {
                let query_type = u16_at(bytes, end);
                let ttl = u32_at(bytes, end + 4);
                let data_length = u16_at(bytes, end + 8);
                if query_type != 1 {
                    Ok(
                        (
                            RecordView::UNKNOWN { domain, query_type, data_length, ttl },
                            end + 10 + data_length,
                        ),
                    )
                } else if end + 14 > BUFFER_SIZE {
                    Err(ParseError::EndOfBuffer)
                } else {
                    Ok(
                        (
                            RecordView::A {
                                domain,
                                address: bytes.subrange(end + 10, end + 14),
                                ttl,
                            },
                            end + 14,
                        ),
                    )
                }
            }
        },
    }
}

/// The octets of a 32-bit number are the bytes that it was read from.
proof fn lemma_octets(a: u8, b: u8, c: u8, d: u8)
    ensures
        ({
            let raw = ((((a as u16) << 8) | (b as u16)) as u32) << 16 | ((((c as u16) << 8) | (
            d as u16)) as u32);
            &&& nth_octal(raw, 1) == a
            &&& nth_octal(raw, 2) == b
            &&& nth_octal(raw, 3) == c
            &&& nth_octal(raw, 4) == d
        }),
{
    let raw = ((((a as u16) << 8) | (b as u16)) as u32) << 16 | ((((c as u16) << 8) | (
    d as u16)) as u32);
    assert(raw == ((((a as u16) << 8) | (b as u16)) as u32) << 16 | ((((c as u16) << 8) | (
    d as u16)) as u32) ==> ((raw >> 24u32) & 0xFF) as u8 == a && ((raw >> 16u32) & 0xFF) as u8 == b
        && ((raw >> 8u32) & 0xFF) as u8 == c && ((raw >> 0u32) & 0xFF) as u8 == d) by (bit_vector);
}

impl DnsRecord {
    /// Reads the record at the buffer's position.
    pub fn read(buffer: &mut WrappedBuffer) -> (r: Result<DnsRecord, ParseError>)
        ensures
            final(buffer)@.bytes == old(buffer)@.bytes,
            match record_at(old(buffer)@.bytes, old(buffer)@.pos) {
                Ok((record, end)) => r is Ok && r->Ok_0@ == record && final(buffer)@.pos == end,
                Err(fault) => r == Err::<DnsRecord, ParseError>(fault),
            },
    {
        let ghost bytes = buffer@.bytes;
        let mut domain = String::new();
        QueryName::read(buffer, &mut domain)?;
        assert(domain@ =~= name_text(name_labels(bytes, old(buffer)@.pos, 0)->Ok_0));
        let ghost end = buffer@.pos;

        let query_type_num: u16 = buffer.read_u16()?;
        let query_type = QueryType::from_u16(query_type_num);
        buffer.read_u16()?;

        let ttl: u32 = buffer.read_u32()?;
        let data_length: u16 = buffer.read_u16()?;

        match query_type {
            QueryType::A => {
                let raw_address: u32 = buffer.read_u32()?;
                let address = Ipv4Addr::new(
                    get_nth_octal(raw_address, 1),
                    get_nth_octal(raw_address, 2),
                    get_nth_octal(raw_address, 3),
                    get_nth_octal(raw_address, 4),
                );
                proof {
                    lemma_octets(
                        bytes[end + 10],
                        bytes[end + 11],
                        bytes[end + 12],
                        bytes[end + 13],
                    );
                    assert(address.octets@ =~= bytes.subrange(end + 10, end + 14));
                }
                Ok(DnsRecord::A { domain, address, ttl })
            },
            QueryType::UNKNOWN(_) => {
                buffer.advance(data_length as usize)?;
                let query_type = query_type_num;
                Ok(DnsRecord::UNKNOWN { domain, query_type, data_length, ttl })
            },
        }
    }

    /// Writes the record at the buffer's position and returns the number of
    /// bytes written.
    pub fn write(&self, buffer: &mut WrappedBuffer) -> (r: Result<usize, ParseError>)
        ensures
            write_outcome(old(buffer)@, record_emission(self@), r, final(buffer)@),
            r is Ok ==> r->Ok_0 == final(buffer)@.pos - old(buffer)@.pos,
    {
        let start_position: usize = buffer.pos();

        match self {
            DnsRecord::A { domain, address, ttl } => {
                let ghost rest = be16(1) + be16(CLASS_IN) + be32(*ttl) + be16(4) + address.octets@;
                proof {
                    lemma_written_then(buffer@, name_emission(domain@), Emission::of(rest));
                }
                QueryName::write(buffer, domain.as_str())?;
                let ghost middle = buffer@;
                buffer.write_u16(QueryType::A.to_u16())?;
                buffer.write_u16(CLASS_IN)?;
                buffer.write_u32(*ttl)?;
                buffer.write_u16(4)?;
                assert(buffer@.bytes =~= middle.put(
                    be16(1) + be16(CLASS_IN) + be32(*ttl) + be16(4),
                ).bytes);

                assert(rest.take(10) =~= be16(1) + be16(CLASS_IN) + be32(*ttl) + be16(4));
                let ip_addr_octets: [u8; 4] = address.octets();
                let mut i: usize = 0;
                while i < 4
                    invariant
                        0 <= i <= 4,
                        0 <= middle.pos,
                        middle.bytes.len() == BUFFER_SIZE,
                        middle.pos + 10 + i <= BUFFER_SIZE,
                        ip_addr_octets@ == address.octets@,
                        rest == be16(1) + be16(CLASS_IN) + be32(*ttl) + be16(4) + address.octets@,
                        buffer@ == middle.put(rest.take(10 + i)),
                        middle.written(Emission::of(rest)) == old(buffer)@.written(
                            record_emission(self@),
                        ),
                        start_position == old(buffer)@.pos,
                        old(buffer)@.pos <= middle.pos,
                    decreases 4 - i,
                {
                    buffer.write_u8(ip_addr_octets[i])?;
                    assert(buffer@.bytes =~= middle.put(rest.take(11 + i)).bytes);
                    i = i + 1;
                }
                assert(rest.take(14) =~= rest);
            },
            _ => {
                assert(buffer@.bytes =~= old(buffer)@.put(Seq::empty()).bytes);
            },
        };
        Ok(buffer.pos() - start_position)
    }
}

} // verus!
