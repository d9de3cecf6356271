//! The wire-format codec: cursor, names, header, questions and records.

pub mod bitshifting;
pub mod dns_header;
pub mod dns_packet;
pub mod dns_question;
pub mod dns_record;
pub mod packet_text;
pub mod parsing_error;
pub mod pointer_cycles;
pub mod query_name_parser;
pub mod query_type;
pub mod result_code;
pub mod round_trip;
pub mod test_helpers;
pub mod wrapped_buffer;

pub use dns_header::DnsHeader;
pub use dns_packet::DnsPacket;
pub use dns_question::DnsQuestion;
pub use dns_record::DnsRecord;
pub use dns_record::Ipv4Addr;
pub use parsing_error::NameFault;
pub use parsing_error::ParseError;
pub use query_name_parser::QueryName;
pub use query_name_parser::QueryNameParser;
pub use query_type::QueryType;
pub use result_code::ResultCode;
pub use wrapped_buffer::Cursor;
pub use wrapped_buffer::Emission;
pub use wrapped_buffer::WrappedBuffer;
pub use wrapped_buffer::BUFFER_SIZE;
