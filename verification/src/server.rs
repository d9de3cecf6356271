//! The decisions of the forwarding resolver: what to send upstream for a
//! query, and what to answer the client. Sockets are the caller's business;
//! this module turns datagrams into datagrams.

use vstd::prelude::*;
use crate::parser::dns_header::{header_at, header_bytes, DnsHeader};
use crate::parser::dns_packet::{decoded, encoded, DnsPacket, PacketView};
use crate::parser::dns_question::{question_emission, DnsQuestion, QuestionView};
use crate::parser::dns_record::{record_emission, RecordView};
use crate::parser::parsing_error::ParseError;
use crate::parser::query_type::QueryType;
use crate::parser::result_code::ResultCode;
use crate::parser::round_trip::{lemma_packet_round_trip, lowered};
use crate::parser::wrapped_buffer::{datagram_image, Emission, WrappedBuffer};

verus! {

broadcast use WrappedBuffer::lemma_shape;

/// The id of the queries that the forwarder sends upstream.
pub const UPSTREAM_QUERY_ID: u16 = 451;

/// What the forwarder does next.
#[derive(Debug, Clone)]
pub enum Step {
    /// Send `datagram` to the upstream resolver and wait for its reply;
    /// `id` and `question` come back with the reply.
    Forward { id: u16, question: DnsQuestion, datagram: Vec<u8> },
    /// Send `datagram` to the client.
    Reply { datagram: Vec<u8> },
}

/// The mathematical model of a step.
pub enum StepView {
    Forward { id: u16, question: QuestionView, datagram: Seq<u8> },
    Reply { datagram: Seq<u8> },
}

impl View for Step {
    type V = StepView;

    open spec fn view(&self) -> StepView {
        match *self {
            Step::Forward { id, question, datagram } => StepView::Forward {
                id,
                question: question@,
                datagram: datagram@,
            },
            Step::Reply { datagram } => StepView::Reply { datagram: datagram@ },
        }
    }
}

/// The header of a response to the query `id`.
pub open spec fn response_header(id: u16, rescode: ResultCode) -> DnsHeader {
    DnsHeader {
        id,
        response: true,
        recursion_desired: true,
        recursion_available: true,
        num_questions: 1,
        rescode,
        ..DnsHeader::empty()
    }
}

/// A response to the query `id` that carries a result code and nothing
/// else.
pub open spec fn bare_response(id: u16, rescode: ResultCode) -> PacketView {
    PacketView {
        header: response_header(id, rescode),
        questions: Seq::empty(),
        answers: Seq::empty(),
        authorities: Seq::empty(),
        additional_records: Seq::empty(),
    }
}

/// The response to the query `id` that hands on what upstream answered to
/// `question`: its result code and its three record sections.
pub open spec fn forwarded_response(
    id: u16,
    question: QuestionView,
    upstream: PacketView,
) -> PacketView {
    PacketView {
        header: response_header(id, upstream.header.rescode),
        questions: seq![question],
        answers: upstream.answers,
        authorities: upstream.authorities,
        additional_records: upstream.additional_records,
    }
}

/// The query that is sent upstream for `question`.
pub open spec fn upstream_query(question: QuestionView) -> PacketView {
    PacketView {
        header: DnsHeader {
            id: UPSTREAM_QUERY_ID,
            num_questions: 1,
            recursion_desired: true,
            ..DnsHeader::empty()
        },
        questions: seq![question],
        answers: Seq::empty(),
        authorities: Seq::empty(),
        additional_records: Seq::empty(),
    }
}

/// The twelve bytes of a bare response: its header with a question count
/// of zero.
pub open spec fn bare_response_bytes(id: u16, rescode: ResultCode) -> Seq<u8> {
    header_bytes(DnsHeader { num_questions: 0, ..response_header(id, rescode) })
}

/// What the forwarder does with a datagram from a client. A datagram that
/// is no message, or a message without a question, is answered with
/// `FORMERR`; the last question of any other message goes upstream, and
/// where it cannot be encoded the answer is `SERVFAIL`.
pub open spec fn query_step(datagram: Seq<u8>) -> StepView {
    match decoded(datagram) {
        Err(_) => StepView::Reply {
            datagram: bare_response_bytes(
                header_at(datagram_image(datagram), 0).id,
                ResultCode::FORMERR,
            ),
        },
        Ok(query) => if query.questions.len() == 0 {
            StepView::Reply { datagram: bare_response_bytes(query.header.id, ResultCode::FORMERR) }
        } else {
            match encoded(upstream_query(query.questions.last())) {
                Ok(bytes) => StepView::Forward {
                    id: query.header.id,
                    question: query.questions.last(),
                    datagram: bytes,
                },
                Err(_) => StepView::Reply {
                    datagram: bare_response_bytes(query.header.id, ResultCode::SERVFAIL),
                },
            }
        },
    }
}

/// What the client is sent once upstream was asked: `SERVFAIL` where no
/// reply came or the reply is no message, else the forwarded response, or
/// the fault that keeps it from being encoded.
pub open spec fn reply_datagram(
    id: u16,
    question: QuestionView,
    reply: Option<Seq<u8>>,
) -> Result<Seq<u8>, ParseError> {
    match reply {
        None => Ok(bare_response_bytes(id, ResultCode::SERVFAIL)),
        Some(bytes) => match decoded(bytes) {
            Err(_) => Ok(bare_response_bytes(id, ResultCode::SERVFAIL)),
            Ok(upstream) => encoded(forwarded_response(id, question, upstream)),
        },
    }
}

/// A bare response is encoded as the twelve bytes of its header.
pub proof fn lemma_bare_response_encodes(id: u16, rescode: ResultCode)
    ensures
        encoded(bare_response(id, rescode)) == Ok::<Seq<u8>, ParseError>(
            bare_response_bytes(id, rescode),
        ),
        bare_response_bytes(id, rescode).len() == 12,
{
    let packet = bare_response(id, rescode);
    let no_questions = packet.questions.map_values(
        |question: QuestionView| question_emission(question),
    );
    let no_records = packet.answers.map_values(
        |record: RecordView| record_emission(record),
    );
    assert(no_questions.len() == 0);
    assert(no_records.len() == 0);
    let nothing = Emission::of(Seq::empty());
    assert(Emission::chain(no_questions) == nothing);
    assert(Emission::chain(no_records) == nothing);
    assert(nothing.bytes + nothing.bytes =~= nothing.bytes);
    assert(nothing.followed_by(nothing) == nothing);
    assert(packet.sections_emission() == nothing);
    assert(header_bytes(packet.reconciled_header()) + nothing.bytes =~= header_bytes(
        packet.reconciled_header(),
    ));
    assert(packet.reconciled_header() == (DnsHeader {
        num_questions: 0,
        ..response_header(id, rescode)
    }));
}

/// The datagram of a bare response is decoded as a message that carries
/// the id and the result code, and no question or record.
pub proof fn lemma_bare_response_decodes(id: u16, rescode: ResultCode)
    ensures
        decoded(bare_response_bytes(id, rescode)) == Ok::<PacketView, ParseError>(
            bare_response(id, rescode).reconciled(),
        ),
        bare_response(id, rescode).reconciled().header.id == id,
        bare_response(id, rescode).reconciled().header.rescode == rescode,
        bare_response(id, rescode).reconciled().header.response,
{
    let packet = bare_response(id, rescode);
    lemma_bare_response_encodes(id, rescode);
    lemma_packet_round_trip(packet);
    let read = lowered(packet.reconciled());
    assert(read.questions =~= packet.questions);
    assert(read.answers =~= packet.answers);
    assert(read.authorities =~= packet.authorities);
    assert(read.additional_records =~= packet.additional_records);
}

/// A response to the query `id` with empty sections and the result code
/// `NOERROR`.
pub fn new_response(id: u16) -> (response: DnsPacket)
    ensures
        response@ == bare_response(id, ResultCode::NOERROR),
{
    let mut response = DnsPacket::new();
    response.header.id = id;
    response.header.num_questions = 1;
    response.header.recursion_desired = true;
    response.header.recursion_available = true;
    response.header.response = true;
    response
}

/// The query that asks upstream for `name` and `query_type`.
pub fn build_query(name: &str, query_type: QueryType) -> (packet: DnsPacket)
    ensures
        packet@ == upstream_query(QuestionView { name: name@, query_type }),
{
    let mut packet = DnsPacket::new();
    packet.header.id = UPSTREAM_QUERY_ID;
    packet.header.num_questions = 1;
    packet.header.recursion_desired = true;
    let question = DnsQuestion { name: name.to_owned(), query_type };
    packet.questions.push(question);
    assert(packet@.questions =~= seq![question@]);
    packet
}

/// Hands on what upstream answered: its result code, and its records
/// behind those that `response` holds already; `question` becomes the last
/// question of `response`.
pub fn merge_reply(response: &mut DnsPacket, question: DnsQuestion, upstream: DnsPacket)
    ensures
        final(response)@ == (PacketView {
            header: DnsHeader { rescode: upstream@.header.rescode, ..old(response)@.header },
            questions: old(response)@.questions.push(question@),
            answers: old(response)@.answers + upstream@.answers,
            authorities: old(response)@.authorities + upstream@.authorities,
            additional_records: old(response)@.additional_records + upstream@.additional_records,
        }),
{
    let mut upstream = upstream;
    let ghost before = upstream@;
    response.questions.push(question);
    response.header.rescode = upstream.header.rescode;
    response.answers.append(&mut upstream.answers);
    response.authorities.append(&mut upstream.authorities);
    response.additional_records.append(&mut upstream.additional_records);
    assert(response@.questions =~= old(response)@.questions.push(question@));
    assert(response@.answers =~= old(response)@.answers + before.answers);
    assert(response@.authorities =~= old(response)@.authorities + before.authorities);
    assert(response@.additional_records =~= old(response)@.additional_records
        + before.additional_records);
}

/// The datagram of a response that carries only a result code.
fn bare_reply(id: u16, rescode: ResultCode) -> (datagram: Vec<u8>)
    ensures
        datagram@ == bare_response_bytes(id, rescode),
{
    let mut response = new_response(id);
    response.header.rescode = rescode;
    proof {
        lemma_bare_response_encodes(id, rescode);
        assert(response@ == bare_response(id, rescode));
    }
    response.write().unwrap()
}

/// Decides what to do with a datagram that a client sent.
pub fn on_query(datagram: &[u8]) -> (step: Step)
    ensures
        step@ == query_step(datagram@),
{
    match DnsPacket::read(datagram) {
        Err(_) => {
            let mut buffer = WrappedBuffer::from_bytes(datagram);
            let id: u16 = buffer.read_u16().unwrap();
            Step::Reply { datagram: bare_reply(id, ResultCode::FORMERR) }
        },
        Ok(query) => {
            let mut query = query;
            let id: u16 = query.header.id;
            let ghost asked = query@.questions;
            match query.questions.pop() {
                None => Step::Reply { datagram: bare_reply(id, ResultCode::FORMERR) },
                Some(question) => {
                    assert(question@ == asked.last());
                    let mut packet = build_query(question.name.as_str(), question.query_type);
                    match packet.write() {
                        Ok(datagram) => Step::Forward { id, question, datagram },
                        Err(_) => Step::Reply { datagram: bare_reply(id, ResultCode::SERVFAIL) },
                    }
                },
            }
        },
    }
}

/// Makes the datagram for the client once upstream was asked for
/// `question`; `reply` is what came back, if anything did.
pub fn on_upstream_reply(id: u16, question: DnsQuestion, reply: Option<&[u8]>) -> (r: Result<
    Vec<u8>,
    ParseError,
>)
    ensures
        match reply_datagram(
            id,
            question@,
            match reply {
                Some(bytes) => Some(bytes@),
                None => None,
            },
        ) {
            Ok(bytes) => r is Ok && r->Ok_0@ == bytes,
            Err(fault) => r == Err::<Vec<u8>, ParseError>(fault),
        },
{
    let upstream = match reply {
        None => {
            return Ok(bare_reply(id, ResultCode::SERVFAIL));
        },
        Some(bytes) => match DnsPacket::read(bytes) {
            Err(_) => {
                return Ok(bare_reply(id, ResultCode::SERVFAIL));
            },
            Ok(upstream) => upstream,
        },
    };
    let mut response = new_response(id);
    merge_reply(&mut response, question, upstream);
    proof {
        let merged = forwarded_response(id, question@, upstream@);
        assert(response@.questions =~= merged.questions);
        assert(response@.answers =~= merged.answers);
        assert(response@.authorities =~= merged.authorities);
        assert(response@.additional_records =~= merged.additional_records);
    }
    response.write()
}

} // verus!
