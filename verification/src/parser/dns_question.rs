use vstd::prelude::*;
use super::parsing_error::ParseError;
use super::query_name_parser::{
    name_emission, name_end, name_labels, name_text, QueryName, QueryNameParser,
};
use super::query_type::QueryType;
use super::wrapped_buffer::{
    be16, lemma_written_then, u16_at, write_outcome, Emission, WrappedBuffer, BUFFER_SIZE,
};

verus! {

broadcast use WrappedBuffer::lemma_shape;

/// The class of the Internet, the only one that the codec writes.
pub const CLASS_IN: u16 = 1;

/// A question: the name that is asked for and the type of record wanted.
#[derive(Debug, Clone, PartialEq, Eq)]
pub struct DnsQuestion {
    pub name: String,
    pub query_type: QueryType,
}

/// The mathematical model of a question.
pub struct QuestionView {
    pub name: Seq<char>,
    pub query_type: QueryType,
}

impl View for DnsQuestion {
    type V = QuestionView;

    open spec fn view(&self) -> QuestionView {
        QuestionView { name: self.name@, query_type: self.query_type }
    }
}

/// What a question sends to the buffer: its name, the number of its type
/// and the class of the Internet.
pub open spec fn question_emission(question: QuestionView) -> Emission {
    name_emission(question.name).followed_by(
        Emission::of(be16(question.query_type.number()) + be16(CLASS_IN)),
    )
}

/// The question that stands at `pos`, and the index behind it: a name, a
/// type and a class, which is not kept.
pub open spec fn question_at(bytes: Seq<u8>, pos: int) -> Result<(QuestionView, int), ParseError> {
    match name_labels(bytes, pos, 0) {
        Err(fault) => Err(fault),
        Ok(labels) => {
            let end = name_end(bytes, pos);
            if end + 4 > BUFFER_SIZE {
                Err(ParseError::EndOfBuffer)
            } else {
                Ok(
                    (
                        QuestionView {
                            name: name_text(labels),
                            query_type: QueryType::of_u16(u16_at(bytes, end)),
                        },
                        end + 4,
                    ),
                )
            }
        },
    }
}

impl DnsQuestion {
    fn new() -> (question: DnsQuestion)
        ensures
            question@ == (QuestionView { name: Seq::empty(), query_type: QueryType::UNKNOWN(0) }),
    {
        DnsQuestion { name: String::new(), query_type: QueryType::UNKNOWN(0) }
    }

    /// Reads the question at the buffer's position.
    pub fn read(buffer: &mut WrappedBuffer) -> (r: Result<DnsQuestion, ParseError>)
        ensures
            final(buffer)@.bytes == old(buffer)@.bytes,
            match question_at(old(buffer)@.bytes, old(buffer)@.pos) {
                Ok((question, end)) => r is Ok && r->Ok_0@ == question && final(buffer)@.pos == end,
                Err(fault) => r == Err::<DnsQuestion, ParseError>(fault),
            },
    {
        let mut result = DnsQuestion::new();
        QueryName::read(buffer, &mut result.name)?;
        assert(result.name@ =~= name_text(name_labels(old(buffer)@.bytes, old(buffer)@.pos, 0)->Ok_0));
        result.query_type = QueryType::from_u16(buffer.read_u16()?);
        buffer.read_u16()?;
        Ok(result)
    }

    /// Writes the question at the buffer's position.
    pub fn write(&self, buffer: &mut WrappedBuffer) -> (r: Result<(), ParseError>)
        ensures
            write_outcome(old(buffer)@, question_emission(self@), r, final(buffer)@),
    {
        proof {
            lemma_written_then(
                buffer@,
                name_emission(self.name@),
                Emission::of(be16(self.query_type.number()) + be16(CLASS_IN)),
            );
        }
        QueryName::write(buffer, self.name.as_str())?;
        let ghost middle = buffer@;
        buffer.write_u16(self.query_type.to_u16())?;
        buffer.write_u16(CLASS_IN)?;
        assert(buffer@.bytes =~= middle.put(
            be16(self.query_type.number()) + be16(CLASS_IN),
        ).bytes);
        Ok(())
    }
}

} // verus!
