use dns_codec::parser::parsing_error::NameFault;
use dns_codec::parser::{
    DnsPacket, DnsQuestion, DnsRecord, Ipv4Addr, ParseError, QueryType, ResultCode,
};
use dns_codec::server::{
    build_query, merge_reply, new_response, on_query, on_upstream_reply, Step, UPSTREAM_QUERY_ID,
};

fn query_for(id: u16, name: &str) -> Vec<u8> {
    let mut packet = DnsPacket::new();
    packet.header.id = id;
    packet.header.recursion_desired = true;
    packet.questions.push(DnsQuestion { name: String::from(name), query_type: QueryType::A });
    packet.write().unwrap()
}

// An upstream that echoes a query with one address record as its answer.
fn mock_upstream(datagram: &[u8]) -> Vec<u8> {
    let mut reply = DnsPacket::read(datagram).unwrap();
    reply.header.response = true;
    reply.answers.push(DnsRecord::A {
        domain: String::from("example.com"),
        address: Ipv4Addr::new(93, 184, 216, 34),
        ttl: 3600,
    });
    reply.write().unwrap()
}

#[test]
fn forwards_a_query_and_hands_the_answer_back() {
    let query = query_for(0x1234, "example.com");
    let (id, question, upstream_datagram) = match on_query(&query) {
        Step::Forward { id, question, datagram } => (id, question, datagram),
        other => panic!("expected the query to go upstream, got {:?}", other),
    };
    assert_eq!(id, 0x1234);
    assert_eq!(question, DnsQuestion { name: String::from("example.com"), query_type: QueryType::A });

    let sent = DnsPacket::read(&upstream_datagram).unwrap();
    assert_eq!(sent.header.id, 451);
    assert_eq!(sent.header.recursion_desired, true);
    assert_eq!(sent.header.response, false);
    assert_eq!(sent.header.num_questions, 1);
    assert_eq!(sent.questions, vec![question.clone()]);

    let reply = mock_upstream(&upstream_datagram);
    let datagram = on_upstream_reply(id, question.clone(), Some(&reply)).unwrap();
    let response = DnsPacket::read(&datagram).unwrap();
    assert_eq!(response.header.id, 0x1234);
    assert_eq!(response.header.response, true);
    assert_eq!(response.header.recursion_desired, true);
    assert_eq!(response.header.recursion_available, true);
    assert_eq!(response.header.rescode, ResultCode::NOERROR);
    assert_eq!(response.questions, vec![question]);
    assert_eq!(
        response.answers,
        vec![DnsRecord::A {
            domain: String::from("example.com"),
            address: Ipv4Addr::new(93, 184, 216, 34),
            ttl: 3600,
        }]
    );
    assert!(response.authorities.is_empty());
    assert!(response.additional_records.is_empty());
}

#[test]
fn a_query_without_a_question_is_a_format_error() {
    let datagram = [0xAB, 0xCD, 0x01, 0x00, 0, 0, 0, 0, 0, 0, 0, 0];
    match on_query(&datagram) {
        Step::Reply { datagram } => {
            assert_eq!(datagram, vec![0xAB, 0xCD, 0x81, 0x81, 0, 0, 0, 0, 0, 0, 0, 0]);
            let response = DnsPacket::read(&datagram).unwrap();
            assert_eq!(response.header.id, 0xABCD);
            assert_eq!(response.header.rescode, ResultCode::FORMERR);
            assert_eq!(response.header.response, true);
        }
        other => panic!("expected a reply, got {:?}", other),
    }
}

#[test]
fn a_query_that_is_no_message_is_a_format_error() {
    // The name of the question is a pointer to itself.
    let mut datagram = vec![0x00, 0x2A, 0x01, 0x00, 0, 1, 0, 0, 0, 0, 0, 0];
    datagram.extend_from_slice(&[0xC0, 0x0C, 0, 1, 0, 1]);
    match on_query(&datagram) {
        Step::Reply { datagram } => {
            let response = DnsPacket::read(&datagram).unwrap();
            assert_eq!(response.header.id, 42);
            assert_eq!(response.header.rescode, ResultCode::FORMERR);
        }
        other => panic!("expected a reply, got {:?}", other),
    }
    // An empty datagram is read as a message of zeros.
    match on_query(&[]) {
        Step::Reply { datagram } => {
            assert_eq!(datagram, vec![0, 0, 0x81, 0x81, 0, 0, 0, 0, 0, 0, 0, 0]);
        }
        other => panic!("expected a reply, got {:?}", other),
    }
}

#[test]
fn the_last_question_goes_upstream() {
    let mut packet = DnsPacket::new();
    packet.header.id = 9;
    packet.questions.push(DnsQuestion { name: String::from("first.example"), query_type: QueryType::A });
    packet.questions.push(DnsQuestion { name: String::from("last.example"), query_type: QueryType::UNKNOWN(28) });
    match on_query(&packet.write().unwrap()) {
        Step::Forward { id, question, datagram } => {
            assert_eq!(id, 9);
            assert_eq!(question.name, "last.example");
            assert_eq!(question.query_type, QueryType::UNKNOWN(28));
            let sent = DnsPacket::read(&datagram).unwrap();
            assert_eq!(sent.questions, vec![question]);
        }
        other => panic!("expected the query to go upstream, got {:?}", other),
    }
}

#[test]
fn a_question_that_cannot_be_sent_is_a_server_failure() {
    // A label of 30 bytes that are no text grows to 90 bytes of text.
    let mut datagram = vec![0, 5, 1, 0, 0, 1, 0, 0, 0, 0, 0, 0, 30];
    datagram.extend_from_slice(&[0x80; 30]);
    datagram.extend_from_slice(&[0, 0, 1, 0, 1]);
    match on_query(&datagram) {
        Step::Reply { datagram } => {
            let response = DnsPacket::read(&datagram).unwrap();
            assert_eq!(response.header.id, 5);
            assert_eq!(response.header.rescode, ResultCode::SERVFAIL);
            assert!(response.questions.is_empty());
        }
        other => panic!("expected a reply, got {:?}", other),
    }
}

#[test]
fn no_reply_from_upstream_is_a_server_failure() {
    let question = DnsQuestion { name: String::from("example.com"), query_type: QueryType::A };
    let datagram = on_upstream_reply(77, question.clone(), None).unwrap();
    assert_eq!(datagram, vec![0, 77, 0x81, 0x82, 0, 0, 0, 0, 0, 0, 0, 0]);

    // A reply that is no message.
    let mut reply = vec![0u8; 12];
    reply[7] = 1;
    reply.extend_from_slice(&[0xC0, 0x0C]);
    let datagram = on_upstream_reply(77, question, Some(&reply)).unwrap();
    let response = DnsPacket::read(&datagram).unwrap();
    assert_eq!(response.header.id, 77);
    assert_eq!(response.header.rescode, ResultCode::SERVFAIL);
    assert!(response.answers.is_empty());
}

#[test]
fn the_result_code_of_upstream_is_handed_on() {
    let question = DnsQuestion { name: String::from("nowhere.example"), query_type: QueryType::A };
    let mut reply = build_query("nowhere.example", QueryType::A);
    reply.header.response = true;
    reply.header.rescode = ResultCode::NXDOMAIN;
    reply.authorities.push(DnsRecord::A {
        domain: String::from("ns.example"),
        address: Ipv4Addr::new(10, 1, 2, 3),
        ttl: 60,
    });
    let reply = reply.write().unwrap();
    let datagram = on_upstream_reply(3, question, Some(&reply)).unwrap();
    let response = DnsPacket::read(&datagram).unwrap();
    assert_eq!(response.header.rescode, ResultCode::NXDOMAIN);
    assert_eq!(response.header.num_questions, 1);
    assert_eq!(response.header.num_authorities, 1);
    assert_eq!(response.authorities.len(), 1);
    assert!(response.answers.is_empty());
}

#[test]
fn a_response_that_cannot_be_encoded_is_a_failure() {
    let question = DnsQuestion { name: "a".repeat(64), query_type: QueryType::A };
    let reply = query_for(1, "example.com");
    assert_eq!(
        on_upstream_reply(1, question, Some(&reply)),
        Err(ParseError::MalformedName(NameFault::LabelTooLong))
    );
}

#[test]
fn an_upstream_query_has_a_fixed_id() {
    let packet = build_query("example.com", QueryType::A);
    assert_eq!(UPSTREAM_QUERY_ID, 451);
    assert_eq!(packet.header.id, 451);
    assert_eq!(packet.header.num_questions, 1);
    assert_eq!(packet.header.recursion_desired, true);
    assert_eq!(packet.header.response, false);
    assert_eq!(
        packet.questions,
        vec![DnsQuestion { name: String::from("example.com"), query_type: QueryType::A }]
    );
    assert!(packet.answers.is_empty());
}

#[test]
fn a_response_starts_with_the_id_of_the_query() {
    let response = new_response(0xBEEF);
    assert_eq!(response.header.id, 0xBEEF);
    assert_eq!(response.header.response, true);
    assert_eq!(response.header.recursion_desired, true);
    assert_eq!(response.header.recursion_available, true);
    assert_eq!(response.header.num_questions, 1);
    assert_eq!(response.header.rescode, ResultCode::NOERROR);
    assert!(response.questions.is_empty());
}

#[test]
fn merging_keeps_the_order_of_the_records() {
    let record = |last: u8| DnsRecord::A {
        domain: String::from("x"),
        address: Ipv4Addr::new(1, 1, 1, last),
        ttl: 1,
    };
    let mut response = new_response(1);
    response.answers.push(record(1));
    let mut upstream = DnsPacket::new();
    upstream.header.rescode = ResultCode::REFUSED;
    upstream.answers.push(record(2));
    upstream.answers.push(record(3));
    upstream.additional_records.push(record(4));
    let question = DnsQuestion { name: String::from("x"), query_type: QueryType::A };
    merge_reply(&mut response, question.clone(), upstream);
    assert_eq!(response.header.rescode, ResultCode::REFUSED);
    assert_eq!(response.header.id, 1);
    assert_eq!(response.questions, vec![question]);
    assert_eq!(response.answers, vec![record(1), record(2), record(3)]);
    assert!(response.authorities.is_empty());
    assert_eq!(response.additional_records, vec![record(4)]);
}
