use dns_codec::parser::{DnsQuestion, ParseError, QueryType, WrappedBuffer, BUFFER_SIZE};
use dns_codec::parser::test_helpers::{get_buffer_at_beginning, get_buffer_at_question_section};

// A response to a query for the address of google.com.
const GOOGLE_QUERY: [u8; 44] = [
    0xBB, 0xD8, 0x81, 0x80, 0x00, 0x01, 0x00, 0x01, 0x00, 0x00, 0x00, 0x00, 0x06, 0x67, 0x6F,
    0x6F, 0x67, 0x6C, 0x65, 0x03, 0x63, 0x6F, 0x6D, 0x00, 0x00, 0x01, 0x00, 0x01, 0xC0, 0x0C,
    0x00, 0x01, 0x00, 0x01, 0x00, 0x00, 0x01, 0x09, 0x00, 0x04, 0x8E, 0xFA, 0x47, 0x4E,
];

#[test]
fn reads_name_successfully() {
    let expected_domain_name = String::from("google.com");
    let question = DnsQuestion::read(&mut get_buffer_at_question_section(&GOOGLE_QUERY)).unwrap();
    assert_eq!(question.name.is_ascii(), true);
    assert_eq!(question.name, expected_domain_name);
}

#[test]
fn reads_type_successfully() {
    let expected_type = QueryType::A;
    let question = DnsQuestion::read(&mut get_buffer_at_question_section(&GOOGLE_QUERY)).unwrap();
    assert_eq!(question.query_type, expected_type);
}

#[test]
fn fails_to_read_name_if_buffer_at_wrong_pos() {
    let expected_domain_name = String::from("google.com");
    let question = DnsQuestion::read(&mut get_buffer_at_beginning(&GOOGLE_QUERY)).unwrap();
    assert_ne!(question.name, expected_domain_name);
    assert_eq!(question.name.is_ascii(), false);
}

#[test]
fn writes_name_successfully() {
    let expected_domain_name = "google.com";

    let mut buffer = WrappedBuffer::new();
    let question = DnsQuestion {
        name: String::from(expected_domain_name),
        query_type: QueryType::A,
    };

    question.write(&mut buffer).unwrap();
    buffer.seek(0).unwrap();
    let result = DnsQuestion::read(&mut buffer).unwrap();

    assert_eq!(result.name, expected_domain_name);
}

#[test]
fn writes_type_successfully() {
    let expected_query_type = QueryType::A;

    let mut buffer = WrappedBuffer::new();
    let question = DnsQuestion {
        name: String::from("github.ru"),
        query_type: expected_query_type,
    };

    question.write(&mut buffer).unwrap();
    buffer.seek(0).unwrap();
    let result = DnsQuestion::read(&mut buffer).unwrap();

    assert_eq!(result.query_type, expected_query_type);
}

#[test]
fn a_question_is_written_with_the_class_of_the_internet() {
    let mut buffer = WrappedBuffer::new();
    let question = DnsQuestion { name: String::from("a.bc"), query_type: QueryType::UNKNOWN(28) };
    question.write(&mut buffer).unwrap();
    assert_eq!(buffer.pos(), 10);
    assert_eq!(
        buffer.get_slice(0, 10).unwrap(),
        &[1, b'a', 2, b'b', b'c', 0, 0, 28, 0, 1]
    );
}

#[test]
fn a_question_of_unknown_type_is_read_back() {
    let mut buffer = WrappedBuffer::new();
    let question = DnsQuestion { name: String::from("Example.Org"), query_type: QueryType::UNKNOWN(999) };
    question.write(&mut buffer).unwrap();
    let end = buffer.pos();
    buffer.seek(0).unwrap();
    let result = DnsQuestion::read(&mut buffer).unwrap();
    assert_eq!(result.name, "example.org");
    assert_eq!(result.query_type, QueryType::UNKNOWN(999));
    assert_eq!(buffer.pos(), end);
}

#[test]
fn the_class_of_a_question_is_not_kept() {
    let mut buffer = WrappedBuffer::from_bytes(&[1, b'x', 0, 0, 1, 0xAB, 0xCD, 9]);
    let result = DnsQuestion::read(&mut buffer).unwrap();
    assert_eq!(result, DnsQuestion { name: String::from("x"), query_type: QueryType::A });
    assert_eq!(buffer.pos(), 7);
}

#[test]
fn a_question_that_leaves_the_buffer_is_not_read() {
    let mut buffer = WrappedBuffer::new();
    buffer.seek(BUFFER_SIZE - 4).unwrap();
    assert_eq!(DnsQuestion::read(&mut buffer), Err(ParseError::EndOfBuffer));
    buffer.seek(BUFFER_SIZE - 5).unwrap();
    assert!(DnsQuestion::read(&mut buffer).is_ok());

    let question = DnsQuestion { name: String::from("a"), query_type: QueryType::A };
    buffer.seek(BUFFER_SIZE - 6).unwrap();
    assert_eq!(question.write(&mut buffer), Err(ParseError::EndOfBuffer));
    buffer.seek(BUFFER_SIZE - 7).unwrap();
    assert_eq!(question.write(&mut buffer), Ok(()));
}

#[test]
fn reads_unknown_query_type_successfully() {
    // The question of the response, asked for a text record in place of an address.
    let mut datagram = GOOGLE_QUERY.to_vec();
    datagram[25] = 16;
    let question = DnsQuestion::read(&mut get_buffer_at_question_section(&datagram)).unwrap();
    assert_eq!(question.name, "google.com");
    assert_eq!(question.query_type, QueryType::UNKNOWN(16));
}
