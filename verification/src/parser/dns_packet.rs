use vstd::prelude::*;
use vstd::slice::slice_to_vec;
use super::dns_header::{header_at, header_bytes, DnsHeader};
use super::dns_question::{question_at, question_emission, DnsQuestion, QuestionView};
use super::dns_record::{record_at, record_emission, DnsRecord, RecordView};
use super::parsing_error::ParseError;
use super::wrapped_buffer::{
    datagram_image, lemma_then_associative, lemma_written_nothing, lemma_written_then,
    write_outcome, Emission, WrappedBuffer, BUFFER_SIZE,
};

verus! {

broadcast use WrappedBuffer::lemma_shape;

/// A DNS message: a header and four sections.
#[derive(Clone, Debug)]
pub struct DnsPacket {
    pub header: DnsHeader,
    pub questions: Vec<DnsQuestion>,
    pub answers: Vec<DnsRecord>,
    pub authorities: Vec<DnsRecord>,
    pub additional_records: Vec<DnsRecord>,
}

/// The mathematical model of a message.
pub struct PacketView {
    pub header: DnsHeader,
    pub questions: Seq<QuestionView>,
    pub answers: Seq<RecordView>,
    pub authorities: Seq<RecordView>,
    pub additional_records: Seq<RecordView>,
}

/// The models of the questions in `questions`.
pub open spec fn question_views(questions: Seq<DnsQuestion>) -> Seq<QuestionView> {
    questions.map_values(|question: DnsQuestion| question@)
}

/// The models of the records in `records`.
pub open spec fn record_views(records: Seq<DnsRecord>) -> Seq<RecordView> {
    records.map_values(|record: DnsRecord| record@)
}

impl View for DnsPacket {
    type V = PacketView;

    open spec fn view(&self) -> PacketView {
        PacketView {
            header: self.header,
            questions: question_views(self.questions@),
            answers: record_views(self.answers@),
            authorities: record_views(self.authorities@),
            additional_records: record_views(self.additional_records@),
        }
    }
}

/// The count that the header holds for a section of `len` entries: the
/// length itself as far as sixteen bits hold it.
pub open spec fn section_count(len: nat) -> u16 {
    (len % 0x10000) as u16
}

/// What `questions` send to the buffer, one after the other.
pub open spec fn questions_emission(questions: Seq<QuestionView>) -> Emission {
    Emission::chain(questions.map_values(|question: QuestionView| question_emission(question)))
}

/// What `records` send to the buffer, one after the other.
pub open spec fn records_emission(records: Seq<RecordView>) -> Emission {
    Emission::chain(records.map_values(|record: RecordView| record_emission(record)))
}

impl PacketView {
    /// The header with its four counts set to the lengths of the sections.
    pub open spec fn reconciled_header(self) -> DnsHeader {
        DnsHeader {
            num_questions: section_count(self.questions.len()),
            num_answers: section_count(self.answers.len()),
            num_authorities: section_count(self.authorities.len()),
            num_additional: section_count(self.additional_records.len()),
            ..self.header
        }
    }

    /// The message with the counts of its header set to the lengths of its
    /// sections.
    pub open spec fn reconciled(self) -> PacketView {
        PacketView { header: self.reconciled_header(), ..self }
    }

    /// What the sections send to the buffer: the questions, the answers, the
    /// authorities and the additional records.
    pub open spec fn sections_emission(self) -> Emission {
        questions_emission(self.questions).followed_by(
            records_emission(self.answers),
        ).followed_by(records_emission(self.authorities)).followed_by(
            records_emission(self.additional_records),
        )
    }

    /// What the message sends to the buffer: the header with its counts set
    /// to the lengths of the sections, then the sections.
    pub open spec fn emission(self) -> Emission {
        Emission::of(header_bytes(self.reconciled_header())).followed_by(self.sections_emission())
    }
}

/// `items` in front of what `rest` found, or the fault of `rest`.
pub open spec fn with_items<T>(items: Seq<T>, rest: Result<(Seq<T>, int), ParseError>) -> Result<
    (Seq<T>, int),
    ParseError,
> {
    match rest {
        Ok((more, end)) => Ok((items + more, end)),
        Err(fault) => Err(fault),
    }
}

/// The `count` questions that stand in a row from `pos` on, and the index
/// behind them.
pub open spec fn questions_at(bytes: Seq<u8>, pos: int, count: nat) -> Result<
    (Seq<QuestionView>, int),
    ParseError,
>
    decreases count,
{
    if count == 0 {
        Ok((Seq::empty(), pos))
    } else {
        match question_at(bytes, pos) {
            Err(fault) => Err(fault),
            Ok((question, next)) => with_items(
                seq![question],
                questions_at(bytes, next, (count - 1) as nat),
            ),
        }
    }
}

/// The `count` records that stand in a row from `pos` on, and the index
/// behind them.
pub open spec fn records_at(bytes: Seq<u8>, pos: int, count: nat) -> Result<
    (Seq<RecordView>, int),
    ParseError,
>
    decreases count,
{
    if count == 0 {
        Ok((Seq::empty(), pos))
    } else {
        match record_at(bytes, pos) {
            Err(fault) => Err(fault),
            Ok((record, next)) => with_items(
                seq![record],
                records_at(bytes, next, (count - 1) as nat),
            ),
        }
    }
}

/// The message that stands at `pos`, and the index behind it: the header,
/// then as many questions, answers, authorities and additional records as
/// the header counts.
pub open spec fn packet_at(bytes: Seq<u8>, pos: int) -> Result<(PacketView, int), ParseError> {
    if pos + 12 > BUFFER_SIZE {
        Err(ParseError::EndOfBuffer)
    } else {
        let header = header_at(bytes, pos);
        match questions_at(bytes, pos + 12, header.num_questions as nat) {
            Err(fault) => Err(fault),
            Ok((questions, after_questions)) => match records_at(
                bytes,
                after_questions,
                header.num_answers as nat,
            ) {
                Err(fault) => Err(fault),
                Ok((answers, after_answers)) => match records_at(
                    bytes,
                    after_answers,
                    header.num_authorities as nat,
                ) {
                    Err(fault) => Err(fault),
                    Ok((authorities, after_authorities)) => match records_at(
                        bytes,
                        after_authorities,
                        header.num_additional as nat,
                    ) {
                        Err(fault) => Err(fault),
                        Ok((additional_records, end)) => Ok(
                            (
                                PacketView {
                                    header,
                                    questions,
                                    answers,
                                    authorities,
                                    additional_records,
                                },
                                end,
                            ),
                        ),
                    },
                },
            },
        }
    }
}

/// What encoding a message into a fresh buffer gives: the bytes of its
/// emission where they fit into a datagram and no fault ends them.
pub open spec fn encoded(packet: PacketView) -> Result<Seq<u8>, ParseError> {
    let emission = packet.emission();
    if emission.bytes.len() > BUFFER_SIZE {
        Err(ParseError::EndOfBuffer)
    } else if let Some(fault) = emission.fault {
        Err(fault)
    } else {
        Ok(emission.bytes)
    }
}

/// What decoding a datagram gives: the message at the start of its image
/// in a buffer.
pub open spec fn decoded(datagram: Seq<u8>) -> Result<PacketView, ParseError> {
    match packet_at(datagram_image(datagram), 0) {
        Ok((packet, _)) => Ok(packet),
        Err(fault) => Err(fault),
    }
}

/// The counts that an encoded message carries are the lengths of its
/// sections, as long as no section has more entries than sixteen bits can
/// count.
pub proof fn lemma_counts_are_lengths(packet: PacketView)
    requires
        packet.questions.len() <= 0xFFFF,
        packet.answers.len() <= 0xFFFF,
        packet.authorities.len() <= 0xFFFF,
        packet.additional_records.len() <= 0xFFFF,
    ensures
        packet.reconciled().header.num_questions == packet.questions.len(),
        packet.reconciled().header.num_answers == packet.answers.len(),
        packet.reconciled().header.num_authorities == packet.authorities.len(),
        packet.reconciled().header.num_additional == packet.additional_records.len(),
{
}

fn read_questions(buffer: &mut WrappedBuffer, count: u16) -> (r: Result<
    Vec<DnsQuestion>,
    ParseError,
>)
    ensures
        final(buffer)@.bytes == old(buffer)@.bytes,
        match questions_at(old(buffer)@.bytes, old(buffer)@.pos, count as nat) {
            Ok((questions, end)) => r is Ok && question_views(r->Ok_0@) == questions && final(buffer)@.pos == end,
            Err(fault) => r == Err::<Vec<DnsQuestion>, ParseError>(fault),
        },
{
    let ghost bytes = buffer@.bytes;
    let ghost start = buffer@.pos;
    let mut questions: Vec<DnsQuestion> = Vec::new();
    let mut i: u16 = 0;
    assert(with_items(question_views(questions@), questions_at(bytes, start, count as nat))
        == questions_at(bytes, start, count as nat)) by {
        if let Ok((more, end)) = questions_at(bytes, start, count as nat) {
            assert(question_views(questions@) + more =~= more);
        }
    }
    while i < count
        invariant
            bytes == old(buffer)@.bytes,
            start == old(buffer)@.pos,
            buffer@.bytes == bytes,
            i <= count,
            questions_at(bytes, start, count as nat) == with_items(
                question_views(questions@),
                questions_at(bytes, buffer@.pos, (count - i) as nat),
            ),
        decreases count - i,
    {
        let ghost done = question_views(questions@);
        let question = DnsQuestion::read(buffer)?;
        proof {
            let rest = questions_at(bytes, buffer@.pos, (count - i - 1) as nat);
            assert(question_views(questions@.push(question)) =~= done.push(question@));
            assert(with_items(done, with_items(seq![question@], rest)) == with_items(
                done.push(question@),
                rest,
            )) by {
                if let Ok((more, end)) = rest {
                    assert(done + (seq![question@] + more) =~= done.push(question@) + more);
                }
            }
        }
        questions.push(question);
        i = i + 1;
    }
    assert(question_views(questions@) + Seq::<QuestionView>::empty() =~= question_views(
        questions@,
    ));
    Ok(questions)
}

fn read_section(buffer: &mut WrappedBuffer, count: u16) -> (r: Result<Vec<DnsRecord>, ParseError>)
    ensures
        final(buffer)@.bytes == old(buffer)@.bytes,
        match records_at(old(buffer)@.bytes, old(buffer)@.pos, count as nat) {
            Ok((records, end)) => r is Ok && record_views(r->Ok_0@) == records && final(buffer)@.pos == end,
            Err(fault) => r == Err::<Vec<DnsRecord>, ParseError>(fault),
        },
{
    let ghost bytes = buffer@.bytes;
    let ghost start = buffer@.pos;
    let mut records: Vec<DnsRecord> = Vec::new();
    let mut i: u16 = 0;
    assert(with_items(record_views(records@), records_at(bytes, start, count as nat))
        == records_at(bytes, start, count as nat)) by {
        if let Ok((more, end)) = records_at(bytes, start, count as nat) {
            assert(record_views(records@) + more =~= more);
        }
    }
    while i < count
        invariant
            bytes == old(buffer)@.bytes,
            start == old(buffer)@.pos,
            buffer@.bytes == bytes,
            i <= count,
            records_at(bytes, start, count as nat) == with_items(
                record_views(records@),
                records_at(bytes, buffer@.pos, (count - i) as nat),
            ),
        decreases count - i,
    {
        let ghost done = record_views(records@);
        let record = DnsRecord::read(buffer)?;
        proof {
            let rest = records_at(bytes, buffer@.pos, (count - i - 1) as nat);
            assert(record_views(records@.push(record)) =~= done.push(record@));
            assert(with_items(done, with_items(seq![record@], rest)) == with_items(
                done.push(record@),
                rest,
            )) by {
                if let Ok((more, end)) = rest {
                    assert(done + (seq![record@] + more) =~= done.push(record@) + more);
                }
            }
        }
        records.push(record);
        i = i + 1;
    }
    assert(record_views(records@) + Seq::<RecordView>::empty() =~= record_views(records@));
    Ok(records)
}

fn write_questions(questions: &Vec<DnsQuestion>, buffer: &mut WrappedBuffer) -> (r: Result<
    (),
    ParseError,
>)
    ensures
        write_outcome(
            old(buffer)@,
            questions_emission(question_views(questions@)),
            r,
            final(buffer)@,
        ),
{
    let ghost parts = question_views(questions@).map_values(
        |question: QuestionView| question_emission(question),
    );
    let mut i: usize = 0;
    assert(parts.skip(0) =~= parts);
    while i < questions.len()
        invariant
            0 <= i <= questions@.len(),
            parts == question_views(questions@).map_values(
                |question: QuestionView| question_emission(question),
            ),
            old(buffer)@.written(Emission::chain(parts)) == buffer@.written(
                Emission::chain(parts.skip(i as int)),
            ),
        decreases questions@.len() - i,
    {
        proof {
            let rest = parts.skip(i as int);
            assert(rest.skip(1) =~= parts.skip(i + 1));
            assert(rest[0] == question_emission(questions@[i as int]@));
            lemma_written_then(buffer@, rest[0], Emission::chain(rest.skip(1)));
        }
        questions[i].write(buffer)?;
        i = i + 1;
    }
    proof {
        lemma_written_nothing(buffer@);
    }
    Ok(())
}

fn write_section(records: &Vec<DnsRecord>, buffer: &mut WrappedBuffer) -> (r: Result<
    (),
    ParseError,
>)
    ensures
        write_outcome(old(buffer)@, records_emission(record_views(records@)), r, final(buffer)@),
{
    let ghost parts = record_views(records@).map_values(
        |record: RecordView| record_emission(record),
    );
    let mut i: usize = 0;
    assert(parts.skip(0) =~= parts);
    while i < records.len()
        invariant
            0 <= i <= records@.len(),
            parts == record_views(records@).map_values(
                |record: RecordView| record_emission(record),
            ),
            old(buffer)@.written(Emission::chain(parts)) == buffer@.written(
                Emission::chain(parts.skip(i as int)),
            ),
        decreases records@.len() - i,
    {
        proof {
            let rest = parts.skip(i as int);
            assert(rest.skip(1) =~= parts.skip(i + 1));
            assert(rest[0] == record_emission(records@[i as int]@));
            lemma_written_then(buffer@, rest[0], Emission::chain(rest.skip(1)));
        }
        records[i].write(buffer)?;
        i = i + 1;
    }
    proof {
        lemma_written_nothing(buffer@);
    }
    Ok(())
}

fn section_count_of(len: usize) -> (count: u16)
    ensures
        count == section_count(len as nat),
{
    (len % 0x10000) as u16
}

impl DnsPacket {
    /// A message with an empty header and empty sections.
    pub fn new() -> (packet: DnsPacket)
        ensures
            packet@ == (PacketView {
                header: DnsHeader::empty(),
                questions: Seq::empty(),
                answers: Seq::empty(),
                authorities: Seq::empty(),
                additional_records: Seq::empty(),
            }),
    {
        let packet = DnsPacket {
            header: DnsHeader::new(),
            questions: Vec::new(),
            answers: Vec::new(),
            authorities: Vec::new(),
            additional_records: Vec::new(),
        };
        assert(packet@.questions =~= Seq::empty());
        assert(packet@.answers =~= Seq::empty());
        assert(packet@.authorities =~= Seq::empty());
        assert(packet@.additional_records =~= Seq::empty());
        packet
    }

    /// Reads the message at the buffer's position.
    pub fn from_buffer(buffer: &mut WrappedBuffer) -> (r: Result<DnsPacket, ParseError>)
        ensures
            final(buffer)@.bytes == old(buffer)@.bytes,
            match packet_at(old(buffer)@.bytes, old(buffer)@.pos) {
                Ok((packet, end)) => r is Ok && r->Ok_0@ == packet && final(buffer)@.pos == end,
                Err(fault) => r == Err::<DnsPacket, ParseError>(fault),
            },
    {
        let mut header = DnsHeader::new();
        header.read(buffer)?;
        let questions = read_questions(buffer, header.num_questions)?;
        let answers = read_section(buffer, header.num_answers)?;
        let authorities = read_section(buffer, header.num_authorities)?;
        let additional_records = read_section(buffer, header.num_additional)?;
        Ok(DnsPacket { header, questions, answers, authorities, additional_records })
    }

    /// Decodes a datagram: the message at the start of a fresh buffer that
    /// holds the first 512 bytes of `datagram`.
    pub fn read(datagram: &[u8]) -> (r: Result<DnsPacket, ParseError>)
        ensures
            match decoded(datagram@) {
                Ok(packet) => r is Ok && r->Ok_0@ == packet,
                Err(fault) => r == Err::<DnsPacket, ParseError>(fault),
            },
    {
        let mut buffer = WrappedBuffer::from_bytes(datagram);
        DnsPacket::from_buffer(&mut buffer)
    }

    /// Sets the counts of the header to the lengths of the sections and
    /// writes the message at the buffer's position.
    pub fn write_to(&mut self, buffer: &mut WrappedBuffer) -> (r: Result<(), ParseError>)
        ensures
            final(self)@ == old(self)@.reconciled(),
            write_outcome(old(buffer)@, old(self)@.emission(), r, final(buffer)@),
    {
        proof {
            lemma_written_then(
                buffer@,
                Emission::of(header_bytes(self@.reconciled_header())),
                self@.sections_emission(),
            );
        }
        self.write_header(buffer)?;
        self.write_records(buffer)
    }

    /// Encodes the message into a datagram, after setting the counts of the
    /// header to the lengths of the sections.
    pub fn write(&mut self) -> (r: Result<Vec<u8>, ParseError>)
        ensures
            final(self)@ == old(self)@.reconciled(),
            match encoded(old(self)@) {
                Ok(bytes) => r is Ok && r->Ok_0@ == bytes,
                Err(fault) => r == Err::<Vec<u8>, ParseError>(fault),
            },
    {
        let mut buffer = WrappedBuffer::new();
        self.write_to(&mut buffer)?;
        let size: usize = buffer.pos();
        let slice = buffer.get_slice(0, size)?;
        assert(slice@ =~= old(self)@.emission().bytes);
        Ok(slice_to_vec(slice))
    }

    fn write_header(&mut self, buffer: &mut WrappedBuffer) -> (r: Result<(), ParseError>)
        ensures
            final(self)@ == old(self)@.reconciled(),
            write_outcome(
                old(buffer)@,
                Emission::of(header_bytes(old(self)@.reconciled_header())),
                r,
                final(buffer)@,
            ),
    {
        self.header.num_questions = section_count_of(self.questions.len());
        self.header.num_answers = section_count_of(self.answers.len());
        self.header.num_authorities = section_count_of(self.authorities.len());
        self.header.num_additional = section_count_of(self.additional_records.len());
        self.header.write(buffer)
    }

    fn write_records(&mut self, buffer: &mut WrappedBuffer) -> (r: Result<(), ParseError>)
        ensures
            *final(self) == *old(self),
            write_outcome(old(buffer)@, old(self)@.sections_emission(), r, final(buffer)@),
    {
        let ghost questions = questions_emission(self@.questions);
        let ghost answers = records_emission(self@.answers);
        let ghost authorities = records_emission(self@.authorities);
        let ghost additional = records_emission(self@.additional_records);
        proof {
            lemma_then_associative(questions.followed_by(answers), authorities, additional);
            lemma_then_associative(questions, answers, authorities.followed_by(additional));
            lemma_written_then(
                buffer@,
                questions,
                answers.followed_by(authorities.followed_by(additional)),
            );
        }
        write_questions(&self.questions, buffer)?;
        proof {
            lemma_written_then(buffer@, answers, authorities.followed_by(additional));
        }
        write_section(&self.answers, buffer)?;
        proof {
            lemma_written_then(buffer@, authorities, additional);
        }
        write_section(&self.authorities, buffer)?;
        write_section(&self.additional_records, buffer)
    }
}

} // verus!
