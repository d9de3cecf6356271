//! A message as text: the header, then each question and each record, on
//! lines of their own.

use vstd::prelude::*;
use vstd::string::*;
use super::dns_header::DnsHeader;
use super::dns_packet::{question_views, record_views, DnsPacket, PacketView};
use super::dns_question::{DnsQuestion, QuestionView};
use super::dns_record::{DnsRecord, RecordView};

verus! {

/// The text that the pretty debug format makes of a header.
pub uninterp spec fn header_dump(header: DnsHeader) -> Seq<char>;

/// The text that the pretty debug format makes of a question.
pub uninterp spec fn question_dump(question: QuestionView) -> Seq<char>;

/// The text that the pretty debug format makes of a record.
pub uninterp spec fn record_dump(record: RecordView) -> Seq<char>;

/// `texts`, each followed by a line feed.
pub open spec fn lines(texts: Seq<Seq<char>>) -> Seq<char>
    decreases texts.len(),
{
    if texts.len() == 0 {
        Seq::empty()
    } else {
        lines(texts.drop_last()) + texts.last() + seq!['\n']
    }
}

/// The texts of the parts of a message, in the order in which they are
/// written out.
pub open spec fn packet_dumps(packet: PacketView) -> Seq<Seq<char>> {
    seq![header_dump(packet.header)] + packet.questions.map_values(
        |question: QuestionView| question_dump(question),
    ) + packet.answers.map_values(|record: RecordView| record_dump(record))
        + packet.authorities.map_values(|record: RecordView| record_dump(record))
        + packet.additional_records.map_values(|record: RecordView| record_dump(record))
}

/// `format!` with the pretty debug format `{:#?}`, on a header: the text
/// depends on the header alone and is only named.
#[verifier::external_body]
fn header_debug(header: &DnsHeader) -> (text: String)
    ensures
        text@ == header_dump(*header),
{
    format!("{:#?}", header)
}

/// `format!` with the pretty debug format `{:#?}`, on a question: the text
/// depends on the question alone and is only named.
#[verifier::external_body]
fn question_debug(question: &DnsQuestion) -> (text: String)
    ensures
        text@ == question_dump(question@),
{
    format!("{:#?}", question)
}

/// `format!` with the pretty debug format `{:#?}`, on a record: the text
/// depends on the record alone and is only named.
#[verifier::external_body]
fn record_debug(record: &DnsRecord) -> (text: String)
    ensures
        text@ == record_dump(record@),
{
    format!("{:#?}", record)
}

/// Appends `line` and a line feed to `text`.
pub fn push_line(text: &mut String, line: &str)
    ensures
        final(text)@ == old(text)@ + line@ + seq!['\n'],
{
    proof {
        reveal_strlit("\n");
    }
    text.append(line);
    text.append("\n");
    assert(text@ =~= old(text)@ + line@ + seq!['\n']);
}

/// One more text makes one more line.
proof fn lemma_lines_push(texts: Seq<Seq<char>>, text: Seq<char>)
    ensures
        lines(texts.push(text)) == lines(texts) + text + seq!['\n'],
{
    assert(texts.push(text).drop_last() =~= texts);
}

fn push_records(text: &mut String, records: &Vec<DnsRecord>, Ghost(before): Ghost<Seq<Seq<char>>>)
    requires
        old(text)@ == lines(before),
    ensures
        final(text)@ == lines(
            before + record_views(records@).map_values(|record: RecordView| record_dump(record)),
        ),
{
    let ghost dumps = record_views(records@).map_values(|record: RecordView| record_dump(record));
    let mut i: usize = 0;
    assert(before + dumps.take(0) =~= before);
    while i < records.len()
        invariant
            0 <= i <= records@.len(),
            dumps == record_views(records@).map_values(|record: RecordView| record_dump(record)),
            text@ == lines(before + dumps.take(i as int)),
        decreases records@.len() - i,
    {
        let line = record_debug(&records[i]);
        push_line(text, line.as_str());
        proof {
            lemma_lines_push(before + dumps.take(i as int), line@);
            assert((before + dumps.take(i as int)).push(line@) =~= before + dumps.take(i + 1));
        }
        i = i + 1;
    }
    assert(dumps.take(records@.len() as int) =~= dumps);
}

impl DnsPacket {
    /// The message as text: the header, then each question and each record
    /// of the three sections, in the pretty debug format, on lines of their
    /// own.
    pub fn to_text(&self) -> (text: String)
        ensures
            text@ == lines(packet_dumps(self@)),
    {
        let mut text = String::new();
        let ghost head = seq![header_dump(self.header)];
        let ghost asked = question_views(self.questions@).map_values(
            |question: QuestionView| question_dump(question),
        );
        let header = header_debug(&self.header);
        push_line(&mut text, header.as_str());
        proof {
            lemma_lines_push(Seq::empty(), header@);
            assert(Seq::<Seq<char>>::empty().push(header@) =~= head);
            assert(lines(Seq::<Seq<char>>::empty()) =~= Seq::<char>::empty());
            assert(text@ =~= lines(head));
            assert(head + asked.take(0) =~= head);
        }
        let mut i: usize = 0;
        while i < self.questions.len()
            invariant
                0 <= i <= self.questions@.len(),
                head == seq![header_dump(self.header)],
                asked == question_views(self.questions@).map_values(
                    |question: QuestionView| question_dump(question),
                ),
                text@ == lines(head + asked.take(i as int)),
            decreases self.questions@.len() - i,
        {
            let line = question_debug(&self.questions[i]);
            push_line(&mut text, line.as_str());
            proof {
                lemma_lines_push(head + asked.take(i as int), line@);
                assert((head + asked.take(i as int)).push(line@) =~= head + asked.take(i + 1));
            }
            i = i + 1;
        }
        assert(asked.take(self.questions@.len() as int) =~= asked);
        push_records(&mut text, &self.answers, Ghost(head + asked));
        let ghost answers = record_views(self.answers@).map_values(
            |record: RecordView| record_dump(record),
        );
        push_records(&mut text, &self.authorities, Ghost(head + asked + answers));
        let ghost authorities = record_views(self.authorities@).map_values(
            |record: RecordView| record_dump(record),
        );
        push_records(
            &mut text,
            &self.additional_records,
            Ghost(head + asked + answers + authorities),
        );
        text
    }
}

} // verus!
