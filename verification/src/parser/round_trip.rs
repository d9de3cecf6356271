//! What is written is read back: the laws that tie the encoders to the
//! decoders.

use vstd::prelude::*;
use vstd::utf8::*;
use super::dns_header::{header_at, header_bytes, lemma_header_round_trip, DnsHeader};
use super::dns_packet::{
    decoded, encoded, packet_at, questions_at, questions_emission, records_at, records_emission,
    PacketView,
};
use super::dns_question::{question_at, question_emission, QuestionView, CLASS_IN};
use super::dns_record::{record_at, record_emission, RecordView};
use super::parsing_error::ParseError;
use super::query_name_parser::{
    first_dot, label_emission, label_text, labels_emission, lossy_text, lowercase, name_emission,
    name_end, name_labels, name_text, split_labels, DOT, MAX_JUMPS, MAX_LABEL_LENGTH,
};
use super::wrapped_buffer::{
    be16, be32, datagram_image, lemma_u16_round_trip, lemma_u32_round_trip, Cursor, BUFFER_SIZE,
};

verus! {

/// A plain name: ASCII text whose labels, the parts between its dots, have
/// from 1 to 63 characters each; the empty name is plain too.
pub open spec fn plain_name(name: Seq<char>) -> bool {
    &&& is_ascii_chars(name)
    &&& name.len() > 0 ==> forall|i: int|
        0 <= i < split_labels(encode_utf8(name)).len() ==> 0 < (#[trigger] split_labels(
            encode_utf8(name),
        )[i]).len() <= MAX_LABEL_LENGTH
}

/// ASCII text is encoded one byte for each character, and the bytes are
/// read back as the text.
pub proof fn lemma_ascii_bytes(text: Seq<char>)
    requires
        is_ascii_chars(text),
    ensures
        encode_utf8(text).len() == text.len(),
        forall|i: int| 0 <= i < text.len() ==> #[trigger] encode_utf8(text)[i] == text[i] as u8,
        forall|i: int| 0 <= i < text.len() ==> #[trigger] encode_utf8(text)[i] < 128,
        lossy_text(encode_utf8(text)) == text,
{
    is_ascii_chars_encode_utf8(text);
    encode_utf8_valid_utf8(text);
    encode_utf8_decode_utf8(text);
    assert forall|i: int| 0 <= i < text.len() implies #[trigger] encode_utf8(text)[i] < 128 by {
        assert(text[i] <= '\u{7f}');
    }
}

/// A part of ASCII text is encoded as the same part of the bytes.
pub proof fn lemma_ascii_part(text: Seq<char>, from: int, to: int)
    requires
        is_ascii_chars(text),
        0 <= from <= to <= text.len(),
    ensures
        is_ascii_chars(text.subrange(from, to)),
        encode_utf8(text.subrange(from, to)) == encode_utf8(text).subrange(from, to),
{
    let part = text.subrange(from, to);
    assert forall|i: int| 0 <= i < part.len() implies '\0' <= #[trigger] part[i] <= '\u{7f}' by {
        assert(part[i] == text[from + i]);
    }
    lemma_ascii_bytes(text);
    lemma_ascii_bytes(part);
    assert forall|i: int| 0 <= i < part.len() implies encode_utf8(part)[i] == encode_utf8(
        text,
    ).subrange(from, to)[i] by {
        assert(encode_utf8(part)[i] == part[i] as u8);
        assert(encode_utf8(text)[from + i] == text[from + i] as u8);
    }
    assert(encode_utf8(part) =~= encode_utf8(text).subrange(from, to));
}

/// The name that labels spell starts with the first label.
pub proof fn lemma_name_text_first(label: Seq<u8>, rest: Seq<Seq<u8>>)
    ensures
        name_text(seq![label] + rest) == if rest.len() == 0 {
            label_text(label)
        } else {
            label_text(label) + seq!['.'] + name_text(rest)
        },
    decreases rest.len(),
{
    let all = seq![label] + rest;
    if rest.len() == 0 {
        assert(all.len() == 1);
        assert(all[0] == label);
    } else {
        assert(all.drop_last() =~= seq![label] + rest.drop_last());
        assert(all.last() == rest.last());
        lemma_name_text_first(label, rest.drop_last());
        if rest.len() == 1 {
            assert(rest.drop_last().len() == 0);
            assert(name_text(rest) == label_text(rest[0]));
            assert(name_text(all) =~= label_text(label) + seq!['.'] + name_text(rest));
        } else {
            assert(name_text(all) =~= label_text(label) + seq!['.'] + name_text(rest));
        }
    }
}

/// No label begins where the first dot is, and the first dot is not past
/// the end.
pub proof fn lemma_first_dot_bounds(bytes: Seq<u8>)
    ensures
        0 <= first_dot(bytes) <= bytes.len(),
        first_dot(bytes) < bytes.len() ==> bytes[first_dot(bytes)] == DOT,
    decreases bytes.len(),
{
    if bytes.len() != 0 && bytes[0] != DOT {
        lemma_first_dot_bounds(bytes.skip(1));
    }
}

/// The labels between the dots of ASCII text spell the text in lower case.
pub proof fn lemma_split_spells(name: Seq<char>)
    requires
        is_ascii_chars(name),
    ensures
        name_text(split_labels(encode_utf8(name))) == lowercase(name),
    decreases name.len(),
{
    let bytes = encode_utf8(name);
    lemma_ascii_bytes(name);
    lemma_first_dot_bounds(bytes);
    let dot = first_dot(bytes);
    if dot < bytes.len() {
        let head = name.subrange(0, dot);
        let tail = name.subrange(dot + 1, name.len() as int);
        lemma_ascii_part(name, 0, dot);
        lemma_ascii_part(name, dot + 1, name.len() as int);
        assert(bytes.take(dot) =~= bytes.subrange(0, dot));
        assert(bytes.skip(dot + 1) =~= bytes.subrange(dot + 1, name.len() as int));
        lemma_ascii_bytes(head);
        lemma_split_spells(tail);
        let rest = split_labels(bytes.skip(dot + 1));
        lemma_name_text_first(bytes.take(dot), rest);
        assert(rest.len() > 0);
        assert(name[dot] == '.') by {
            assert(bytes[dot] == name[dot] as u8);
            assert(name[dot] <= '\u{7f}');
        }
        assert(lowercase(name) =~= lowercase(head) + seq!['.'] + lowercase(tail));
    } else {
        assert(split_labels(bytes) =~= seq![bytes]);
    }
}

/// A byte up to 63 is no pointer.
proof fn lemma_length_byte(byte: u8)
    by (bit_vector)
    requires
        byte <= 63,
    ensures
        byte & 0xC0 != 0xC0,
{
}

/// Where two runs of bytes stand in a row, each of them stands in its
/// place.
pub proof fn lemma_parts_in_place(bytes: Seq<u8>, pos: int, first: Seq<u8>, second: Seq<u8>)
    requires
        0 <= pos,
        pos + first.len() + second.len() <= bytes.len(),
        bytes.subrange(pos, pos + first.len() + second.len()) == first + second,
    ensures
        bytes.subrange(pos, pos + first.len()) == first,
        bytes.subrange(pos + first.len(), pos + first.len() + second.len()) == second,
{
    let whole = bytes.subrange(pos, pos + first.len() + second.len());
    assert forall|i: int| 0 <= i < first.len() implies bytes[pos + i] == first[i] by {
        assert(bytes[pos + i] == whole[i]);
    }
    assert forall|i: int| 0 <= i < second.len() implies bytes[pos + first.len() + i]
        == second[i] by {
        assert(bytes[pos + first.len() + i] == whole[first.len() + i]);
    }
    assert(bytes.subrange(pos, pos + first.len()) =~= first);
    assert(bytes.subrange(pos + first.len(), pos + first.len() + second.len()) =~= second);
}

/// Labels of 1 to 63 bytes are written without a fault.
pub proof fn lemma_labels_written(labels: Seq<Seq<u8>>)
    requires
        forall|i: int| 0 <= i < labels.len() ==> 0 < (#[trigger] labels[i]).len() <= MAX_LABEL_LENGTH,
    ensures
        labels_emission(labels).fault is None,
    decreases labels.len(),
{
    if labels.len() > 0 {
        let rest = labels.skip(1);
        assert forall|i: int| 0 <= i < rest.len() implies 0 < (#[trigger] rest[i]).len()
            <= MAX_LABEL_LENGTH by {
            assert(rest[i] == labels[i + 1]);
        }
        lemma_labels_written(rest);
    }
}

/// A plain name is written without a fault, and takes a byte at least.
pub proof fn lemma_name_written(name: Seq<char>)
    requires
        plain_name(name),
    ensures
        name_emission(name).fault is None,
        name_emission(name).bytes.len() >= 1,
{
    let labels = split_labels(encode_utf8(name));
    if name.len() == 0 {
        lemma_ascii_bytes(name);
        assert(encode_utf8(name) =~= Seq::<u8>::empty());
        assert(labels =~= seq![Seq::<u8>::empty()]);
        assert(labels.skip(1).len() == 0);
        assert(labels_emission(labels.skip(1)).fault is None);
        assert(label_emission(labels[0]).fault is None);
        assert(labels_emission(labels).fault is None);
    } else {
        lemma_labels_written(labels);
    }
}

/// Labels of 1 to 63 bytes that stand in the buffer as they are written,
/// with the zero byte behind them, are read as they are, whatever number of
/// pointers was followed before.
pub proof fn lemma_labels_read(labels: Seq<Seq<u8>>, bytes: Seq<u8>, pos: int, jumps: int)
    requires
        forall|i: int| 0 <= i < labels.len() ==> 0 < (#[trigger] labels[i]).len() <= MAX_LABEL_LENGTH,
        bytes.len() == BUFFER_SIZE,
        0 <= pos,
        0 <= jumps <= MAX_JUMPS,
        ({
            let written = labels_emission(labels).bytes + seq![0u8];
            &&& pos + written.len() <= BUFFER_SIZE
            &&& bytes.subrange(pos, pos + written.len()) == written
        }),
    ensures
        name_labels(bytes, pos, jumps) == Ok::<Seq<Seq<u8>>, ParseError>(labels),
        name_end(bytes, pos) == pos + labels_emission(labels).bytes.len() + 1,
    decreases labels.len(),
{
    let written = labels_emission(labels).bytes + seq![0u8];
    let here = bytes.subrange(pos, pos + written.len());
    if labels.len() == 0 {
        assert(bytes[pos] == here[0]);
        assert(0u8 & 0xC0 != 0xC0) by (bit_vector);
        assert(labels =~= Seq::<Seq<u8>>::empty());
    } else {
        let label = labels[0];
        let rest = labels.skip(1);
        let length = label.len() as u8;
        assert forall|i: int| 0 <= i < rest.len() implies 0 < (#[trigger] rest[i]).len()
            <= MAX_LABEL_LENGTH by {
            assert(rest[i] == labels[i + 1]);
        }
        lemma_labels_written(rest);
        let later = labels_emission(rest).bytes + seq![0u8];
        assert(written =~= (seq![length] + label) + later);
        lemma_parts_in_place(bytes, pos, seq![length] + label, later);
        let next = pos + 1 + label.len();
        lemma_labels_read(rest, bytes, next, jumps);
        assert(bytes[pos] == length) by {
            assert(bytes[pos] == bytes.subrange(pos, next)[0]);
        }
        lemma_length_byte(length);
        assert(bytes.subrange(pos + 1, next) =~= label) by {
            assert forall|i: int| 0 <= i < label.len() implies bytes[pos + 1 + i] == label[i] by {
                assert(bytes[pos + 1 + i] == bytes.subrange(pos, next)[1 + i]);
            }
        }
        assert(seq![label] + rest =~= labels);
    }
}

/// A plain name that stands in the buffer as it is written is read in
/// lower case.
pub proof fn lemma_name_read(name: Seq<char>, bytes: Seq<u8>, pos: int)
    requires
        plain_name(name),
        bytes.len() == BUFFER_SIZE,
        0 <= pos,
        pos + name_emission(name).bytes.len() <= BUFFER_SIZE,
        bytes.subrange(pos, pos + name_emission(name).bytes.len()) == name_emission(name).bytes,
    ensures
        name_labels(bytes, pos, 0) is Ok,
        name_text(name_labels(bytes, pos, 0)->Ok_0) == lowercase(name),
        name_end(bytes, pos) == pos + name_emission(name).bytes.len(),
{
    let labels = split_labels(encode_utf8(name));
    lemma_name_written(name);
    if name.len() == 0 {
        let none = Seq::<Seq<u8>>::empty();
        lemma_ascii_bytes(name);
        assert(encode_utf8(name) =~= Seq::<u8>::empty());
        assert(labels =~= seq![Seq::<u8>::empty()]);
        assert(labels.skip(1) =~= none);
        assert(labels_emission(labels).bytes =~= labels_emission(none).bytes);
        lemma_labels_read(none, bytes, pos, 0);
        assert(name_text(none) =~= lowercase(name));
    } else {
        lemma_labels_written(labels);
        lemma_labels_read(labels, bytes, pos, 0);
        lemma_split_spells(name);
    }
}

/// A plain name that was written is read back in lower case, and the
/// position behind the written name is the position behind the name read.
pub proof fn lemma_name_round_trip(name: Seq<char>, cursor: Cursor)
    requires
        plain_name(name),
        cursor.bytes.len() == BUFFER_SIZE,
        0 <= cursor.pos,
        cursor.written(name_emission(name)) is Ok,
    ensures
        ({
            let after = cursor.written(name_emission(name))->Ok_0;
            &&& name_labels(after.bytes, cursor.pos, 0) is Ok
            &&& name_text(name_labels(after.bytes, cursor.pos, 0)->Ok_0) == lowercase(name)
            &&& name_end(after.bytes, cursor.pos) == after.pos
        }),
{
    let emission = name_emission(name);
    let after = cursor.put(emission.bytes);
    assert(after.bytes.subrange(cursor.pos, cursor.pos + emission.bytes.len())
        =~= emission.bytes);
    lemma_name_read(name, after.bytes, cursor.pos);
}

/// A question that is read back as it was written, but for the case of its
/// name: its name is plain, and its type is the one that its number is read
/// as.
pub open spec fn plain_question(question: QuestionView) -> bool {
    plain_name(question.name) && question.query_type.is_canonical()
}

/// A record that is read back as it was written, but for the case of its
/// name: an address record with a plain name and four octets.
pub open spec fn plain_record(record: RecordView) -> bool {
    match record {
        RecordView::A { domain, address, .. } => plain_name(domain) && address.len() == 4,
        RecordView::UNKNOWN { .. } => false,
    }
}

/// The question with its name in lower case.
pub open spec fn lowered_question(question: QuestionView) -> QuestionView {
    QuestionView { name: lowercase(question.name), query_type: question.query_type }
}

/// The record with its name in lower case.
pub open spec fn lowered_record(record: RecordView) -> RecordView {
    match record {
        RecordView::A { domain, address, ttl } => RecordView::A {
            domain: lowercase(domain),
            address,
            ttl,
        },
        RecordView::UNKNOWN { domain, query_type, data_length, ttl } => RecordView::UNKNOWN {
            domain: lowercase(domain),
            query_type,
            data_length,
            ttl,
        },
    }
}

/// The message with every name in lower case.
pub open spec fn lowered(packet: PacketView) -> PacketView {
    PacketView {
        header: packet.header,
        questions: packet.questions.map_values(|question: QuestionView| lowered_question(question)),
        answers: packet.answers.map_values(|record: RecordView| lowered_record(record)),
        authorities: packet.authorities.map_values(|record: RecordView| lowered_record(record)),
        additional_records: packet.additional_records.map_values(
            |record: RecordView| lowered_record(record),
        ),
    }
}

/// A message that is read back as it was written, but for the case of its
/// names: the operation code fits its four bits, and the questions and
/// records are plain.
pub open spec fn plain_packet(packet: PacketView) -> bool {
    &&& packet.header.opcode <= 15
    &&& forall|i: int| 0 <= i < packet.questions.len() ==> plain_question(#[trigger] packet.questions[i])
    &&& forall|i: int| 0 <= i < packet.answers.len() ==> plain_record(#[trigger] packet.answers[i])
    &&& forall|i: int| 0 <= i < packet.authorities.len() ==> plain_record(#[trigger] packet.authorities[i])
    &&& forall|i: int| 0 <= i < packet.additional_records.len() ==> plain_record(#[trigger] packet.additional_records[i])
}

/// A plain question is written without a fault, and takes five bytes at
/// least.
pub proof fn lemma_question_written(question: QuestionView)
    requires
        plain_question(question),
    ensures
        question_emission(question).fault is None,
        question_emission(question).bytes.len() == name_emission(question.name).bytes.len() + 4,
        question_emission(question).bytes.len() >= 5,
{
    lemma_name_written(question.name);
}

/// A plain question that stands in the buffer as it is written is read with
/// its name in lower case.
pub proof fn lemma_question_read(question: QuestionView, bytes: Seq<u8>, pos: int)
    requires
        plain_question(question),
        bytes.len() == BUFFER_SIZE,
        0 <= pos,
        pos + question_emission(question).bytes.len() <= BUFFER_SIZE,
        bytes.subrange(pos, pos + question_emission(question).bytes.len()) == question_emission(
            question,
        ).bytes,
    ensures
        question_at(bytes, pos) == Ok::<(QuestionView, int), ParseError>(
            (lowered_question(question), pos + question_emission(question).bytes.len()),
        ),
{
    let name = name_emission(question.name).bytes;
    let kind = be16(question.query_type.number());
    let fixed = kind + be16(CLASS_IN);
    lemma_question_written(question);
    lemma_parts_in_place(bytes, pos, name, fixed);
    lemma_name_read(question.name, bytes, pos);
    let end = pos + name.len();
    lemma_parts_in_place(bytes, end, kind, be16(CLASS_IN));
    lemma_u16_round_trip(bytes, end, question.query_type.number());
    question.query_type.lemma_round_trip(0);
}

/// A plain record is written without a fault, and takes fifteen bytes at
/// least.
pub proof fn lemma_record_written(record: RecordView)
    requires
        plain_record(record),
    ensures
        record_emission(record).fault is None,
        record_emission(record).bytes.len() == name_emission(record->A_domain).bytes.len() + 14,
        record_emission(record).bytes.len() >= 15,
{
    lemma_name_written(record->A_domain);
}

/// A plain record that stands in the buffer as it is written is read with
/// its name in lower case.
pub proof fn lemma_record_read(record: RecordView, bytes: Seq<u8>, pos: int)
    requires
        plain_record(record),
        bytes.len() == BUFFER_SIZE,
        0 <= pos,
        pos + record_emission(record).bytes.len() <= BUFFER_SIZE,
        bytes.subrange(pos, pos + record_emission(record).bytes.len()) == record_emission(
            record,
        ).bytes,
    ensures
        record_at(bytes, pos) == Ok::<(RecordView, int), ParseError>(
            (lowered_record(record), pos + record_emission(record).bytes.len()),
        ),
{
    let domain = record->A_domain;
    let address = record->A_address;
    let ttl = record->A_ttl;
    let name = name_emission(domain).bytes;
    let fixed = be16(1) + be16(CLASS_IN) + be32(ttl) + be16(4) + address;
    lemma_record_written(record);
    lemma_parts_in_place(bytes, pos, name, fixed);
    lemma_name_read(domain, bytes, pos);
    let end = pos + name.len();
    assert(fixed =~= be16(1) + (be16(CLASS_IN) + be32(ttl) + be16(4) + address));
    lemma_parts_in_place(bytes, end, be16(1), be16(CLASS_IN) + be32(ttl) + be16(4) + address);
    lemma_u16_round_trip(bytes, end, 1);
    assert(fixed =~= (be16(1) + be16(CLASS_IN)) + (be32(ttl) + (be16(4) + address)));
    lemma_parts_in_place(bytes, end, be16(1) + be16(CLASS_IN), be32(ttl) + (be16(4) + address));
    lemma_parts_in_place(bytes, end + 4, be32(ttl), be16(4) + address);
    lemma_u32_round_trip(bytes, end + 4, ttl);
    lemma_parts_in_place(bytes, end + 8, be16(4), address);
    lemma_u16_round_trip(bytes, end + 8, 4);
}

/// Plain questions are written without a fault, and take five bytes each
/// at least.
pub proof fn lemma_questions_written(questions: Seq<QuestionView>)
    requires
        forall|i: int| 0 <= i < questions.len() ==> plain_question(#[trigger] questions[i]),
    ensures
        questions_emission(questions).fault is None,
        questions_emission(questions).bytes.len() >= 5 * questions.len(),
    decreases questions.len(),
{
    if questions.len() > 0 {
        let rest = questions.skip(1);
        assert forall|i: int| 0 <= i < rest.len() implies plain_question(#[trigger] rest[i]) by {
            assert(rest[i] == questions[i + 1]);
        }
        lemma_questions_written(rest);
        lemma_question_written(questions[0]);
        lemma_questions_unfold(questions);
    }
}

/// The emission of questions starts with the emission of the first.
proof fn lemma_questions_unfold(questions: Seq<QuestionView>)
    requires
        questions.len() > 0,
    ensures
        questions_emission(questions) == question_emission(questions[0]).followed_by(
            questions_emission(questions.skip(1)),
        ),
{
    let parts = questions.map_values(|question: QuestionView| question_emission(question));
    assert(parts.skip(1) =~= questions.skip(1).map_values(
        |question: QuestionView| question_emission(question),
    ));
}

/// The emission of records starts with the emission of the first.
proof fn lemma_records_unfold(records: Seq<RecordView>)
    requires
        records.len() > 0,
    ensures
        records_emission(records) == record_emission(records[0]).followed_by(
            records_emission(records.skip(1)),
        ),
{
    let parts = records.map_values(|record: RecordView| record_emission(record));
    assert(parts.skip(1) =~= records.skip(1).map_values(
        |record: RecordView| record_emission(record),
    ));
}

/// Plain questions that stand in the buffer as they are written are read
/// with their names in lower case.
pub proof fn lemma_questions_read(questions: Seq<QuestionView>, bytes: Seq<u8>, pos: int)
    requires
        forall|i: int| 0 <= i < questions.len() ==> plain_question(#[trigger] questions[i]),
        bytes.len() == BUFFER_SIZE,
        0 <= pos,
        pos + questions_emission(questions).bytes.len() <= BUFFER_SIZE,
        bytes.subrange(pos, pos + questions_emission(questions).bytes.len())
            == questions_emission(questions).bytes,
    ensures
        questions_at(bytes, pos, questions.len()) == Ok::<(Seq<QuestionView>, int), ParseError>(
            (
                questions.map_values(|question: QuestionView| lowered_question(question)),
                pos + questions_emission(questions).bytes.len(),
            ),
        ),
    decreases questions.len(),
{
    let lowered = questions.map_values(|question: QuestionView| lowered_question(question));
    if questions.len() == 0 {
        assert(lowered =~= Seq::<QuestionView>::empty());
    } else {
        let first = questions[0];
        let rest = questions.skip(1);
        assert forall|i: int| 0 <= i < rest.len() implies plain_question(#[trigger] rest[i]) by {
            assert(rest[i] == questions[i + 1]);
        }
        lemma_question_written(first);
        lemma_questions_written(rest);
        lemma_questions_unfold(questions);
        let head = question_emission(first).bytes;
        let tail = questions_emission(rest).bytes;
        lemma_parts_in_place(bytes, pos, head, tail);
        lemma_question_read(first, bytes, pos);
        lemma_questions_read(rest, bytes, pos + head.len());
        assert(seq![lowered_question(first)] + rest.map_values(
            |question: QuestionView| lowered_question(question),
        ) =~= lowered);
    }
}

/// Plain records are written without a fault, and take fifteen bytes each
/// at least.
pub proof fn lemma_records_written(records: Seq<RecordView>)
    requires
        forall|i: int| 0 <= i < records.len() ==> plain_record(#[trigger] records[i]),
    ensures
        records_emission(records).fault is None,
        records_emission(records).bytes.len() >= 15 * records.len(),
    decreases records.len(),
{
    if records.len() > 0 {
        let rest = records.skip(1);
        assert forall|i: int| 0 <= i < rest.len() implies plain_record(#[trigger] rest[i]) by {
            assert(rest[i] == records[i + 1]);
        }
        lemma_records_written(rest);
        lemma_record_written(records[0]);
        lemma_records_unfold(records);
    }
}

/// Plain records that stand in the buffer as they are written are read
/// with their names in lower case.
pub proof fn lemma_records_read(records: Seq<RecordView>, bytes: Seq<u8>, pos: int)
    requires
        forall|i: int| 0 <= i < records.len() ==> plain_record(#[trigger] records[i]),
        bytes.len() == BUFFER_SIZE,
        0 <= pos,
        pos + records_emission(records).bytes.len() <= BUFFER_SIZE,
        bytes.subrange(pos, pos + records_emission(records).bytes.len()) == records_emission(
            records,
        ).bytes,
    ensures
        records_at(bytes, pos, records.len()) == Ok::<(Seq<RecordView>, int), ParseError>(
            (
                records.map_values(|record: RecordView| lowered_record(record)),
                pos + records_emission(records).bytes.len(),
            ),
        ),
    decreases records.len(),
{
    let lowered = records.map_values(|record: RecordView| lowered_record(record));
    if records.len() == 0 {
        assert(lowered =~= Seq::<RecordView>::empty());
    } else {
        let first = records[0];
        let rest = records.skip(1);
        assert forall|i: int| 0 <= i < rest.len() implies plain_record(#[trigger] rest[i]) by {
            assert(rest[i] == records[i + 1]);
        }
        lemma_record_written(first);
        lemma_records_written(rest);
        lemma_records_unfold(records);
        let head = record_emission(first).bytes;
        let tail = records_emission(rest).bytes;
        lemma_parts_in_place(bytes, pos, head, tail);
        lemma_record_read(first, bytes, pos);
        lemma_records_read(rest, bytes, pos + head.len());
        assert(seq![lowered_record(first)] + rest.map_values(
            |record: RecordView| lowered_record(record),
        ) =~= lowered);
    }
}

/// The bytes that the sections of a plain message are written as: those
/// of the questions, the answers, the authorities and the additional
/// records in a row.
pub proof fn lemma_sections_written(packet: PacketView)
    requires
        plain_packet(packet),
    ensures
        packet.sections_emission().fault is None,
        packet.sections_emission().bytes == questions_emission(packet.questions).bytes + (
        records_emission(packet.answers).bytes + (records_emission(packet.authorities).bytes
            + records_emission(packet.additional_records).bytes)),
        questions_emission(packet.questions).bytes.len() >= 5 * packet.questions.len(),
        records_emission(packet.answers).bytes.len() >= 15 * packet.answers.len(),
        records_emission(packet.authorities).bytes.len() >= 15 * packet.authorities.len(),
        records_emission(packet.additional_records).bytes.len() >= 15
            * packet.additional_records.len(),
{
    let questions = questions_emission(packet.questions);
    let answers = records_emission(packet.answers);
    let authorities = records_emission(packet.authorities);
    let additional = records_emission(packet.additional_records);
    lemma_questions_written(packet.questions);
    lemma_records_written(packet.answers);
    lemma_records_written(packet.authorities);
    lemma_records_written(packet.additional_records);
    assert(((questions.bytes + answers.bytes) + authorities.bytes) + additional.bytes
        =~= questions.bytes + (answers.bytes + (authorities.bytes + additional.bytes)));
}

/// The sections of a plain message that stand in the buffer as they are
/// written are read with their names in lower case.
pub proof fn lemma_sections_read(packet: PacketView, bytes: Seq<u8>, pos: int)
    requires
        plain_packet(packet),
        bytes.len() == BUFFER_SIZE,
        0 <= pos,
        pos + packet.sections_emission().bytes.len() <= BUFFER_SIZE,
        bytes.subrange(pos, pos + packet.sections_emission().bytes.len())
            == packet.sections_emission().bytes,
    ensures
        ({
            let read = lowered(packet);
            let after_questions = pos + questions_emission(packet.questions).bytes.len();
            let after_answers = after_questions + records_emission(packet.answers).bytes.len();
            let after_authorities = after_answers + records_emission(
                packet.authorities,
            ).bytes.len();
            let end = after_authorities + records_emission(packet.additional_records).bytes.len();
            &&& questions_at(bytes, pos, packet.questions.len()) == Ok::<
                (Seq<QuestionView>, int),
                ParseError,
            >((read.questions, after_questions))
            &&& records_at(bytes, after_questions, packet.answers.len()) == Ok::<
                (Seq<RecordView>, int),
                ParseError,
            >((read.answers, after_answers))
            &&& records_at(bytes, after_answers, packet.authorities.len()) == Ok::<
                (Seq<RecordView>, int),
                ParseError,
            >((read.authorities, after_authorities))
            &&& records_at(bytes, after_authorities, packet.additional_records.len()) == Ok::<
                (Seq<RecordView>, int),
                ParseError,
            >((read.additional_records, end))
        }),
{
    let questions = questions_emission(packet.questions).bytes;
    let answers = records_emission(packet.answers).bytes;
    let authorities = records_emission(packet.authorities).bytes;
    let additional = records_emission(packet.additional_records).bytes;
    lemma_sections_written(packet);
    lemma_parts_in_place(bytes, pos, questions, answers + (authorities + additional));
    lemma_questions_read(packet.questions, bytes, pos);
    let after_questions: int = pos + questions.len();
    lemma_parts_in_place(bytes, after_questions, answers, authorities + additional);
    lemma_records_read(packet.answers, bytes, after_questions);
    let after_answers: int = after_questions + answers.len();
    lemma_parts_in_place(bytes, after_answers, authorities, additional);
    lemma_records_read(packet.authorities, bytes, after_answers);
    let after_authorities: int = after_answers + authorities.len();
    lemma_records_read(packet.additional_records, bytes, after_authorities);
}

/// The image of the datagram of a plain message holds the header at its
/// start and the sections behind it, and no section has more entries than
/// its count can hold.
proof fn lemma_datagram_shape(packet: PacketView)
    requires
        plain_packet(packet),
        encoded(packet) is Ok,
    ensures
        ({
            let bytes = datagram_image(encoded(packet)->Ok_0);
            let sections = packet.sections_emission().bytes;
            &&& bytes.len() == BUFFER_SIZE
            &&& bytes.subrange(0, 12) == header_bytes(packet.reconciled_header())
            &&& 12 + sections.len() <= BUFFER_SIZE
            &&& bytes.subrange(12, 12 + sections.len() as int) == sections
        }),
        packet.reconciled_header().num_questions == packet.questions.len(),
        packet.reconciled_header().num_answers == packet.answers.len(),
        packet.reconciled_header().num_authorities == packet.authorities.len(),
        packet.reconciled_header().num_additional == packet.additional_records.len(),
{
    let header = header_bytes(packet.reconciled_header());
    let sections = packet.sections_emission().bytes;
    lemma_sections_written(packet);
    let datagram = packet.emission().bytes;
    assert(datagram == header + sections);
    assert(header.len() == 12);
    let bytes = datagram_image(datagram);
    assert(bytes.subrange(0, datagram.len() as int) =~= datagram);
    lemma_parts_in_place(bytes, 0, header, sections);
}

/// A plain message is encoded unless it is too long for a datagram, and
/// what is decoded from its datagram is the message itself, with the counts
/// of its header set to the lengths of its sections and its names in lower
/// case.
pub proof fn lemma_packet_round_trip(packet: PacketView)
    requires
        plain_packet(packet),
    ensures
        packet.emission().fault is None,
        encoded(packet) is Ok <==> packet.emission().bytes.len() <= BUFFER_SIZE,
        encoded(packet) is Ok ==> decoded(encoded(packet)->Ok_0) == Ok::<PacketView, ParseError>(
            lowered(packet.reconciled()),
        ),
{
    lemma_sections_written(packet);
    if encoded(packet) is Ok {
        let bytes = datagram_image(encoded(packet)->Ok_0);
        lemma_datagram_shape(packet);
        lemma_header_round_trip(packet.reconciled_header(), bytes, 0);
        lemma_sections_read(packet, bytes, 12);
        lemma_packet_at(bytes, packet.reconciled_header(), lowered(packet), 12);
    }
}

/// What is read where the header and the four sections are read one
/// behind the other.
proof fn lemma_packet_at(bytes: Seq<u8>, header: DnsHeader, read: PacketView, start: int)
    requires
        start == 12,
        header_at(bytes, 0) == header,
        ({
            let questions = questions_at(bytes, start, header.num_questions as nat);
            &&& questions is Ok
            &&& questions->Ok_0.0 == read.questions
            &&& ({
                let answers = records_at(bytes, questions->Ok_0.1, header.num_answers as nat);
                &&& answers is Ok
                &&& answers->Ok_0.0 == read.answers
                &&& ({
                    let authorities = records_at(
                        bytes,
                        answers->Ok_0.1,
                        header.num_authorities as nat,
                    );
                    &&& authorities is Ok
                    &&& authorities->Ok_0.0 == read.authorities
                    &&& ({
                        let additional = records_at(
                            bytes,
                            authorities->Ok_0.1,
                            header.num_additional as nat,
                        );
                        &&& additional is Ok
                        &&& additional->Ok_0.0 == read.additional_records
                    })
                })
            })
        }),
    ensures
        packet_at(bytes, 0) is Ok,
        packet_at(bytes, 0)->Ok_0.0 == (PacketView { header, ..read }),
{
}

} // verus!
