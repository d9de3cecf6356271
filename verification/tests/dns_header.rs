use dns_codec::parser::dns_header::HEADER_LENGTH_BYTES;
use dns_codec::parser::test_helpers::{get_buffer_at_beginning, RECORD_COUNT_SIZE_BYTES};
use dns_codec::parser::{DnsHeader, ParseError, ResultCode, WrappedBuffer, BUFFER_SIZE};

const ID_SIZE_BYTES: usize = 2;
const FLAG_SECTION_SIZE_BYTES: usize = 2;

// A response to a query for the address of google.com.
const GOOGLE_QUERY: [u8; 44] = [
    0xBB, 0xD8, 0x81, 0x80, 0x00, 0x01, 0x00, 0x01, 0x00, 0x00, 0x00, 0x00, 0x06, 0x67, 0x6F,
    0x6F, 0x67, 0x6C, 0x65, 0x03, 0x63, 0x6F, 0x6D, 0x00, 0x00, 0x01, 0x00, 0x01, 0xC0, 0x0C,
    0x00, 0x01, 0x00, 0x01, 0x00, 0x00, 0x01, 0x09, 0x00, 0x04, 0x8E, 0xFA, 0x47, 0x4E,
];

fn get_buffer_at_flags_section() -> WrappedBuffer {
    let mut buffer = get_buffer_at_beginning(&GOOGLE_QUERY);
    buffer.advance(ID_SIZE_BYTES).unwrap();
    buffer
}

fn get_buffer_at_record_count_section() -> WrappedBuffer {
    let mut buffer = get_buffer_at_beginning(&GOOGLE_QUERY);
    buffer.advance(ID_SIZE_BYTES + FLAG_SECTION_SIZE_BYTES).unwrap();
    buffer
}

#[test]
fn can_read_id() {
    let mut result = DnsHeader::new();
    let expected_id = 48088;
    result.read_id(&mut get_buffer_at_beginning(&GOOGLE_QUERY)).unwrap();
    assert_eq!(result.id, expected_id);
}

#[test]
fn can_read_flags() {
    let mut result = DnsHeader::new();
    let mut buffer = get_buffer_at_flags_section();
    result.read_flags(&mut buffer).unwrap();

    assert_eq!(result.recursion_desired, true);
    assert_eq!(result.truncated_message, false);
    assert_eq!(result.authoritative_answer, false);
    assert_eq!(result.response, true);
    assert_eq!(result.checking_disabled, false);
    assert_eq!(result.authentic_data, false);
    assert_eq!(result.z, false);
    assert_eq!(result.recursion_available, true);
}

#[test]
fn can_read_question_count() {
    let mut buffer = get_buffer_at_record_count_section();
    let expected_question_count = 1;
    assert_eq!(buffer.read_u16().unwrap(), expected_question_count);
}

#[test]
fn can_read_answer_count() {
    let mut buffer = get_buffer_at_record_count_section();
    let expected_answer_count = 1;
    buffer.advance(RECORD_COUNT_SIZE_BYTES).unwrap();
    assert_eq!(buffer.read_u16().unwrap(), expected_answer_count);
}

#[test]
fn can_read_authority_count() {
    let mut buffer = get_buffer_at_record_count_section();
    let expected_authority_count = 0;
    buffer.advance(RECORD_COUNT_SIZE_BYTES * 2).unwrap();
    assert_eq!(buffer.read_u16().unwrap(), expected_authority_count);
}

#[test]
fn can_read_additional_record_count() {
    let mut buffer = get_buffer_at_record_count_section();
    let expected_additional_record_count = 0;
    buffer.advance(RECORD_COUNT_SIZE_BYTES * 3).unwrap();
    assert_eq!(buffer.read_u16().unwrap(), expected_additional_record_count);
}

#[test]
fn can_write_id() {
    let mut buffer = WrappedBuffer::new();
    let mut header_to_write = DnsHeader::new();
    let mut empty_header = DnsHeader::new();

    let expected_id = 8451;
    header_to_write.id = expected_id;

    header_to_write.write(&mut buffer).unwrap();
    buffer.seek(0).unwrap();
    empty_header.read(&mut buffer).unwrap();

    assert_eq!(empty_header.id, expected_id);
}

#[test]
fn can_write_flags() {
    let mut buffer = WrappedBuffer::new();
    let mut header_to_write = DnsHeader::new();
    let mut empty_header = DnsHeader::new();

    header_to_write.recursion_desired = true;
    header_to_write.truncated_message = false;
    header_to_write.authoritative_answer = false;
    header_to_write.opcode = 0;
    header_to_write.response = false;
    header_to_write.rescode = ResultCode::NOERROR;
    header_to_write.checking_disabled = false;
    header_to_write.authentic_data = false;
    header_to_write.z = false;
    header_to_write.recursion_available = false;
    header_to_write.num_questions = 1;
    header_to_write.num_answers = 1;
    header_to_write.num_authorities = 0;
    header_to_write.num_additional = 0;

    header_to_write.write(&mut buffer).unwrap();
    buffer.seek(0).unwrap();
    empty_header.read(&mut buffer).unwrap();

    assert_eq!(
        header_to_write.recursion_desired,
        empty_header.recursion_desired
    );
    assert_eq!(
        header_to_write.truncated_message,
        empty_header.truncated_message
    );
    assert_eq!(
        header_to_write.authoritative_answer,
        empty_header.authoritative_answer
    );
    assert_eq!(header_to_write.opcode, empty_header.opcode);
    assert_eq!(header_to_write.response, empty_header.response);
    assert_eq!(header_to_write.rescode, empty_header.rescode);
    assert_eq!(
        header_to_write.checking_disabled,
        empty_header.checking_disabled
    );
    assert_eq!(header_to_write.authentic_data, empty_header.authentic_data);
    assert_eq!(header_to_write.z, empty_header.z);
    assert_eq!(
        header_to_write.recursion_available,
        empty_header.recursion_available
    );
}

#[test]
fn can_write_record_counts() {
    let mut buffer = WrappedBuffer::new();
    let mut header_to_write = DnsHeader::new();
    let mut empty_header = DnsHeader::new();

    header_to_write.num_questions = 1;
    header_to_write.num_answers = 1;
    header_to_write.num_authorities = 0;
    header_to_write.num_additional = 0;

    header_to_write.write(&mut buffer).unwrap();
    buffer.seek(0).unwrap();
    empty_header.read(&mut buffer).unwrap();

    assert_eq!(header_to_write.num_questions, empty_header.num_questions);
    assert_eq!(header_to_write.num_answers, empty_header.num_answers);
    assert_eq!(
        header_to_write.num_authorities,
        empty_header.num_authorities
    );
    assert_eq!(header_to_write.num_additional, empty_header.num_additional);
}

#[test]
fn header_bits_of_a_recursive_response() {
    let mut header = DnsHeader::new();
    header.recursion_desired = true;
    header.response = true;
    header.recursion_available = true;
    header.opcode = 0;
    header.rescode = ResultCode::NOERROR;
    header.num_questions = 1;
    header.num_answers = 1;

    let mut buffer = WrappedBuffer::new();
    header.write(&mut buffer).unwrap();
    assert_eq!(buffer.pos(), HEADER_LENGTH_BYTES);
    assert_eq!(buffer.peek(2), Ok(0x81));
    assert_eq!(buffer.peek(3), Ok(0x80));
    assert_eq!(
        buffer.get_slice(0, 12).unwrap(),
        &[0, 0, 0x81, 0x80, 0, 1, 0, 1, 0, 0, 0, 0]
    );
}

#[test]
fn every_flag_has_its_own_bit() {
    let mut header = DnsHeader::new();
    header.truncated_message = true;
    header.opcode = 0b1010;
    header.rescode = ResultCode::REFUSED;
    header.authentic_data = true;
    let mut buffer = WrappedBuffer::new();
    header.write(&mut buffer).unwrap();
    assert_eq!(buffer.peek(2), Ok(0b0101_0010));
    assert_eq!(buffer.peek(3), Ok(0b0010_0101));

    let mut header = DnsHeader::new();
    header.authoritative_answer = true;
    header.checking_disabled = true;
    header.z = true;
    let mut buffer = WrappedBuffer::new();
    header.write(&mut buffer).unwrap();
    assert_eq!(buffer.peek(2), Ok(0b0000_0100));
    assert_eq!(buffer.peek(3), Ok(0b0101_0000));
}

#[test]
fn a_header_is_read_back_as_written() {
    let codes = [
        ResultCode::NOERROR,
        ResultCode::FORMERR,
        ResultCode::SERVFAIL,
        ResultCode::NXDOMAIN,
        ResultCode::NOTIMP,
        ResultCode::REFUSED,
    ];
    for opcode in 0..=15u8 {
        for (i, rescode) in codes.iter().enumerate() {
            let mut header = DnsHeader::new();
            header.id = 0xBED8;
            header.opcode = opcode;
            header.rescode = *rescode;
            header.recursion_desired = opcode % 2 == 0;
            header.truncated_message = opcode % 3 == 0;
            header.authoritative_answer = opcode % 5 == 0;
            header.response = i % 2 == 0;
            header.checking_disabled = i % 3 == 0;
            header.authentic_data = opcode % 2 == 1;
            header.z = i % 2 == 1;
            header.recursion_available = opcode % 4 == 0;
            header.num_questions = 1;
            header.num_answers = 0xFFFF;
            header.num_authorities = 0x0102;
            header.num_additional = 7;

            let mut buffer = WrappedBuffer::new();
            buffer.seek(100).unwrap();
            header.write(&mut buffer).unwrap();
            buffer.seek(100).unwrap();
            let mut read_back = DnsHeader::new();
            read_back.read(&mut buffer).unwrap();
            assert_eq!(read_back, header);
            assert_eq!(buffer.pos(), 112);
        }
    }
}

#[test]
fn an_unknown_result_code_is_read_as_no_error() {
    let mut buffer = WrappedBuffer::from_bytes(&[0, 0, 0, 0x8F]);
    let mut header = DnsHeader::new();
    header.read(&mut buffer).unwrap();
    assert_eq!(header.rescode, ResultCode::NOERROR);
    assert_eq!(header.recursion_available, true);

    let mut buffer = WrappedBuffer::from_bytes(&[0, 0, 0, 0x83]);
    header.read(&mut buffer).unwrap();
    assert_eq!(header.rescode, ResultCode::NXDOMAIN);
}

#[test]
fn a_header_needs_twelve_bytes() {
    let mut buffer = WrappedBuffer::new();
    buffer.seek(BUFFER_SIZE - 11).unwrap();
    let mut header = DnsHeader::new();
    assert_eq!(header.read(&mut buffer), Err(ParseError::EndOfBuffer));
    buffer.seek(BUFFER_SIZE - 11).unwrap();
    assert_eq!(header.write(&mut buffer), Err(ParseError::EndOfBuffer));
    buffer.seek(BUFFER_SIZE - 12).unwrap();
    assert_eq!(header.write(&mut buffer), Ok(()));
}
