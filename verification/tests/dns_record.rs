use dns_codec::parser::{DnsQuestion, DnsRecord, Ipv4Addr, ParseError, WrappedBuffer, BUFFER_SIZE};
use dns_codec::parser::test_helpers::{get_buffer_at_question_section};

// A response to a query for the address of google.com.
const GOOGLE_QUERY: [u8; 44] = [
    0xBB, 0xD8, 0x81, 0x80, 0x00, 0x01, 0x00, 0x01, 0x00, 0x00, 0x00, 0x00, 0x06, 0x67, 0x6F,
    0x6F, 0x67, 0x6C, 0x65, 0x03, 0x63, 0x6F, 0x6D, 0x00, 0x00, 0x01, 0x00, 0x01, 0xC0, 0x0C,
    0x00, 0x01, 0x00, 0x01, 0x00, 0x00, 0x01, 0x09, 0x00, 0x04, 0x8E, 0xFA, 0x47, 0x4E,
];

fn get_buffer_after_question_section() -> WrappedBuffer {
    let mut buffer = get_buffer_at_question_section(&GOOGLE_QUERY);
    DnsQuestion::read(&mut buffer).unwrap();
    buffer
}

fn are_same_enum_variant<T>(a: &T, b: &T) -> bool {
    std::mem::discriminant(a) == std::mem::discriminant(b)
}

#[test]
fn can_read_record_of_known_type() {
    let mut buffer = get_buffer_after_question_section();
    let record = DnsRecord::read(&mut buffer).unwrap();

    let expected_record = DnsRecord::A {
        domain: String::new(),
        address: Ipv4Addr::unspecified(),
        ttl: 0,
    };

    assert!(are_same_enum_variant(&record, &expected_record));
}

#[test]
fn can_write_record_of_known_type() {
    let expected_domain_name = "google.com";
    let expected_ip_address = Ipv4Addr::new(172, 29, 48, 1);
    let expected_ttl = 291;

    let record = DnsRecord::A {
        domain: String::from(expected_domain_name),
        address: expected_ip_address,
        ttl: expected_ttl,
    };
    let mut buffer = WrappedBuffer::new();
    record.write(&mut buffer).unwrap();
    buffer.seek(0).unwrap();

    match DnsRecord::read(&mut buffer).unwrap() {
        DnsRecord::A {
            domain,
            address,
            ttl,
        } => {
            assert_eq!(domain, expected_domain_name);
            assert_eq!(address, expected_ip_address);
            assert_eq!(ttl, expected_ttl);
        }
        _ => panic!(
            "Expected to read back a DNS record of the same type as the record that was written."
        ),
    }
}

#[test]
fn skips_write_for_record_of_unknown_type() {
    let unknown_record = DnsRecord::UNKNOWN {
        domain: String::from("google.com"),
        query_type: 10,
        data_length: 22,
        ttl: 8541,
    };
    let mut buffer = WrappedBuffer::new();
    unknown_record.write(&mut buffer).unwrap();
    buffer.seek(0).unwrap();

    match DnsRecord::read(&mut buffer).unwrap() {
        DnsRecord::UNKNOWN {
            domain,
            query_type,
            data_length,
            ttl,
        } => {
            assert_eq!(domain, String::new());
            assert_eq!(query_type, 0);
            assert_eq!(data_length, 0);
            assert_eq!(ttl, 0);
        }
        _ => panic!("Expected to skip writing DNS record of unknown type."),
    }
}

#[test]
fn dns_record_reads_domain_name_successfully() {
    let expected_domain_name = String::from("google.com");
    let mut buffer = get_buffer_after_question_section();

    match DnsRecord::read(&mut buffer).unwrap() {
        DnsRecord::A { domain, .. } => assert_eq!(domain, expected_domain_name),
        _ => panic!("Expected to receive a known record type."),
    };
}

#[test]
fn reads_ip_address_successfully() {
    let expected_ip = Ipv4Addr::new(142, 250, 71, 78);
    let mut buffer = get_buffer_after_question_section();

    match DnsRecord::read(&mut buffer).unwrap() {
        DnsRecord::A { address, .. } => assert_eq!(address, expected_ip),
        _ => panic!("Expected to receive a known record type."),
    };
}

#[test]
fn reads_ttl_successfully() {
    let expected_time_to_live = 265;
    let mut buffer = get_buffer_after_question_section();

    match DnsRecord::read(&mut buffer).unwrap() {
        DnsRecord::A { ttl, .. } => assert_eq!(ttl, expected_time_to_live),
        _ => panic!("Expected to receive a known record type."),
    };
}

#[test]
fn an_address_record_is_written_byte_for_byte() {
    let record = DnsRecord::A {
        domain: String::from("a.bc"),
        address: Ipv4Addr::new(93, 184, 216, 34),
        ttl: 3600,
    };
    let mut buffer = WrappedBuffer::new();
    buffer.seek(3).unwrap();
    assert_eq!(record.write(&mut buffer), Ok(20));
    assert_eq!(buffer.pos(), 23);
    assert_eq!(
        buffer.get_slice(3, 20).unwrap(),
        &[1, b'a', 2, b'b', b'c', 0, 0, 1, 0, 1, 0, 0, 0x0E, 0x10, 0, 4, 93, 184, 216, 34]
    );
}

#[test]
fn a_record_of_unknown_type_writes_nothing() {
    let record = DnsRecord::UNKNOWN {
        domain: String::from("google.com"),
        query_type: 10,
        data_length: 22,
        ttl: 8541,
    };
    let mut buffer = WrappedBuffer::new();
    buffer.seek(BUFFER_SIZE).unwrap();
    assert_eq!(record.write(&mut buffer), Ok(0));
    assert_eq!(buffer.pos(), BUFFER_SIZE);
}

#[test]
fn can_read_record_of_unknown_type() {
    // type 16, class 1, ttl 0x01020304, 3 bytes of data, then one more byte
    let bytes = [1, b'x', 0, 0, 16, 0, 1, 1, 2, 3, 4, 0, 3, 0xAA, 0xBB, 0xCC, 0x77];
    let mut buffer = WrappedBuffer::from_bytes(&bytes);
    let record = DnsRecord::read(&mut buffer).unwrap();
    assert_eq!(
        record,
        DnsRecord::UNKNOWN {
            domain: String::from("x"),
            query_type: 16,
            data_length: 3,
            ttl: 0x01020304,
        }
    );
    assert_eq!(buffer.pos(), 16);
    assert_eq!(buffer.read_u8(), Ok(0x77));
}

#[test]
fn the_data_of_an_unknown_record_may_leave_the_buffer() {
    let bytes = [0, 0, 16, 0, 1, 0, 0, 0, 0, 0xFF, 0xFF];
    let mut buffer = WrappedBuffer::from_bytes(&bytes);
    let record = DnsRecord::read(&mut buffer).unwrap();
    assert_eq!(
        record,
        DnsRecord::UNKNOWN { domain: String::new(), query_type: 16, data_length: 0xFFFF, ttl: 0 }
    );
    assert_eq!(buffer.pos(), 11 + 0xFFFF);
    assert_eq!(buffer.read_u8(), Err(ParseError::EndOfBuffer));
}

#[test]
fn a_record_that_leaves_the_buffer_is_not_read() {
    // An empty name at 497 and the type of an address at 498.
    let mut bytes = vec![0u8; 512];
    bytes[499] = 1;
    let mut buffer = WrappedBuffer::from_bytes(&bytes);
    buffer.seek(497).unwrap();
    assert!(DnsRecord::read(&mut buffer).is_ok());
    assert_eq!(buffer.pos(), 512);

    // The same record one byte further on.
    let mut bytes = vec![0u8; 512];
    bytes[500] = 1;
    let mut buffer = WrappedBuffer::from_bytes(&bytes);
    buffer.seek(498).unwrap();
    assert_eq!(DnsRecord::read(&mut buffer), Err(ParseError::EndOfBuffer));
}

#[test]
fn a_record_that_does_not_fit_is_not_written() {
    let record = DnsRecord::A {
        domain: String::from("a"),
        address: Ipv4Addr::new(1, 2, 3, 4),
        ttl: 1,
    };
    let mut buffer = WrappedBuffer::new();
    buffer.seek(BUFFER_SIZE - 16).unwrap();
    assert_eq!(record.write(&mut buffer), Err(ParseError::EndOfBuffer));
    buffer.seek(BUFFER_SIZE - 17).unwrap();
    assert_eq!(record.write(&mut buffer), Ok(17));
}

#[test]
fn an_address_has_four_octets() {
    let address = Ipv4Addr::new(142, 250, 71, 78);
    assert_eq!(address.octets(), [142, 250, 71, 78]);
    assert_eq!(Ipv4Addr::unspecified().octets(), [0, 0, 0, 0]);
}
