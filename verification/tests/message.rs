use dns_wire::error::{Error, Section};
use dns_wire::rfc::domain::DomainName;
use dns_wire::rfc::flags::{BitFlags, Flags};
use dns_wire::rfc::header::Header;
use dns_wire::rfc::message::Message;
use dns_wire::rfc::opcode::OpCode;
use dns_wire::rfc::packet_type::PacketType;
use dns_wire::rfc::qclass::QClass;
use dns_wire::rfc::qtype::QType;
use dns_wire::rfc::question::Question;
use dns_wire::rfc::rdata::{RData, AFSDB, NS, TYPE_A, TYPE_AFSDB, TYPE_NS};
use dns_wire::rfc::resource_record::ResourceRecord;
use dns_wire::rfc::response_code::ResponseCode;
use dns_wire::wire::Cursor;

fn name(text: &str) -> DomainName {
    DomainName::try_from(text).unwrap()
}

fn response_flags() -> Flags {
    Flags {
        qr: PacketType::Response,
        op_code: OpCode::Query,
        bitflags: BitFlags {
            authorative_answer: false,
            truncation: false,
            recursion_desired: true,
            recursion_available: true,
            z: false,
            authentic_data: false,
            checking_disabled: false,
        },
        response_code: ResponseCode::NoError,
    }
}

/// A response with one question and one answer whose name is a pointer to the
/// name of the question.
fn compressed_response(ancount: u8) -> Vec<u8> {
    let mut b: Vec<u8> = vec![0x12, 0x34, 0x81, 0x80, 0, 1, 0, ancount, 0, 0, 0, 0];
    b.extend_from_slice(&[3, b'w', b'w', b'w', 6, b'g', b'o', b'o', b'g', b'l', b'e', 3, b'c', b'o', b'm', 0]);
    b.extend_from_slice(&[0, 1, 0, 1]);
    b.extend_from_slice(&[0xc0, 0x0c, 0, 1, 0, 1, 0, 0, 0x01, 0x2c, 0, 4, 142, 250, 179, 100]);
    b
}

fn sample_message() -> Message {
    Message {
        header: Header { id: 0xbeef, flags: response_flags(), qd_count: 1, an_count: 2, ns_count: 1, ar_count: 1 },
        questions: vec![Question { qname: name("example.org."), qtype: QType::ANY, qclass: QClass::IN }],
        answers: vec![
            ResourceRecord { name: name("example.org."), rtype: TYPE_A, class: 1, ttl: 300, rdata: RData::A(0x5db8_d822) },
            ResourceRecord {
                name: name("example.org."),
                rtype: TYPE_AFSDB,
                class: 1,
                ttl: 300,
                rdata: RData::AFSDB(AFSDB { subtype: 1, hostname: name("afs.example.org.") }),
            },
        ],
        authorities: vec![ResourceRecord {
            name: name("org."),
            rtype: TYPE_NS,
            class: 1,
            ttl: 86400,
            rdata: RData::NS(NS(name("a0.org.afilias-nst.info."))),
        }],
        additionals: vec![ResourceRecord {
            name: DomainName::root(),
            rtype: 41,
            class: 4096,
            ttl: 0,
            rdata: RData::Unknown(vec![0, 10, 0, 2, 0xab, 0xcd]),
        }],
    }
}

#[test]
fn header_is_twelve_bytes() {
    let header = Header { id: 0x1234, flags: response_flags(), qd_count: 1, an_count: 2, ns_count: 3, ar_count: 0x0405 };
    let mut buffer: Vec<u8> = Vec::new();
    assert_eq!(header.serialize_to(&mut buffer), Ok(12));
    assert_eq!(buffer, vec![0x12, 0x34, 0x81, 0x80, 0, 1, 0, 2, 0, 3, 4, 5]);
    assert_eq!(Header::decode_at(&buffer, 0), Ok(header));

    let mut cursor = Cursor::new(buffer.as_slice());
    let mut read = Header::default();
    assert_eq!(read.deserialize_from(&mut cursor), Ok(()));
    assert_eq!(read, header);
    assert_eq!(cursor.position(), 12);
}

#[test]
fn header_errors_name_the_field() {
    let short: Vec<u8> = vec![0x12, 0x34, 0x81, 0x80, 0, 1, 0, 2, 0, 3, 4];
    assert_eq!(Header::decode_at(&short, 0), Err(Error::Truncated));
    let mut cursor = Cursor::new(short.as_slice());
    let mut read = Header::default();
    assert_eq!(read.deserialize_from(&mut cursor), Err(Error::Truncated));
    assert_eq!(cursor.position(), 0);
    assert_eq!(read, Header::default());
    // opcode 15
    let bad: Vec<u8> = vec![0x12, 0x34, 0x78, 0x00, 0, 0, 0, 0, 0, 0, 0, 0];
    assert_eq!(Header::decode_at(&bad, 0), Err(Error::UnknownOpCode));
    // response code 15, and the bytes end behind the flags
    let bad: Vec<u8> = vec![0x12, 0x34, 0x00, 0x0f];
    assert_eq!(Header::decode_at(&bad, 0), Err(Error::UnknownResponseCode));
    assert_eq!(Message::decode(&bad), Err(Error::UnknownResponseCode));
}

#[test]
fn a_response_with_a_compressed_name_is_decoded() {
    let bytes = compressed_response(1);
    let message = Message::decode(&bytes).unwrap();
    assert_eq!(message.header.id, 0x1234);
    assert_eq!(message.header.flags, response_flags());
    assert_eq!(message.questions.len(), 1);
    assert_eq!(message.questions[0].qname.to_string(), "www.google.com.");
    assert_eq!(message.questions[0].qtype, QType::A);
    assert_eq!(message.questions[0].qclass, QClass::IN);
    assert_eq!(message.answers.len(), 1);
    assert_eq!(message.answers[0].name.to_string(), "www.google.com.");
    assert_eq!(message.answers[0].rtype, TYPE_A);
    assert_eq!(message.answers[0].class, 1);
    assert_eq!(message.answers[0].ttl, 300);
    assert_eq!(message.answers[0].rdata, RData::A(0x8efa_b364));
    assert!(message.authorities.is_empty());
    assert!(message.additionals.is_empty());
    assert!(!message.is_truncated());
}

#[test]
fn a_header_that_declares_more_answers_than_there_are_is_refused() {
    let bytes = compressed_response(2);
    assert_eq!(Message::decode(&bytes), Err(Error::TruncatedSection(Section::Answer)));
}

#[test]
fn the_end_of_the_bytes_names_the_section() {
    let message = sample_message();
    let mut bytes: Vec<u8> = Vec::new();
    let written = message.serialize_to(&mut bytes).unwrap();
    assert_eq!(written, bytes.len());
    assert_eq!(Message::decode(&bytes[..11]), Err(Error::TruncatedSection(Section::Header)));
    assert_eq!(Message::decode(&bytes[..0]), Err(Error::TruncatedSection(Section::Header)));
    assert_eq!(Message::decode(&bytes[..12]), Err(Error::TruncatedSection(Section::Question)));
    assert_eq!(Message::decode(&bytes[..28]), Err(Error::TruncatedSection(Section::Question)));
    // the question takes 17 bytes: the answers begin at 29
    assert_eq!(Message::decode(&bytes[..29]), Err(Error::TruncatedSection(Section::Answer)));
    // the first answer takes 13 + 10 + 4 bytes, the second 13 + 10 + 19: the authority begins at 98
    assert_eq!(Message::decode(&bytes[..56]), Err(Error::TruncatedSection(Section::Answer)));
    assert_eq!(Message::decode(&bytes[..97]), Err(Error::TruncatedSection(Section::Answer)));
    assert_eq!(Message::decode(&bytes[..98]), Err(Error::TruncatedSection(Section::Authority)));
    assert_eq!(Message::decode(&bytes[..bytes.len() - 1]), Err(Error::TruncatedSection(Section::Additional)));
    assert_eq!(Message::decode(&bytes), Ok(message));
}

#[test]
fn encoded_messages_decode_to_themselves() {
    let message = sample_message();
    let mut bytes: Vec<u8> = Vec::new();
    assert!(message.serialize_to(&mut bytes).is_ok());
    assert_eq!(&bytes[..12], &[0xbe, 0xef, 0x81, 0x80, 0, 1, 0, 2, 0, 1, 0, 1]);
    let decoded = Message::decode(&bytes).unwrap();
    assert_eq!(decoded, message);
    assert_eq!(decoded.questions.len(), decoded.header.qd_count as usize);
    assert_eq!(decoded.answers.len(), decoded.header.an_count as usize);
    assert_eq!(decoded.authorities.len(), decoded.header.ns_count as usize);
    assert_eq!(decoded.additionals.len(), decoded.header.ar_count as usize);
    // bytes behind the last entry are not looked at
    bytes.extend_from_slice(&[0x40, 0x40]);
    assert_eq!(Message::decode(&bytes), Ok(message));
}

#[test]
fn an_empty_message_is_its_header() {
    let message = Message {
        header: Header::default(),
        questions: Vec::new(),
        answers: Vec::new(),
        authorities: Vec::new(),
        additionals: Vec::new(),
    };
    let mut bytes: Vec<u8> = vec![0xaa];
    assert_eq!(message.serialize_to(&mut bytes), Ok(12));
    assert_eq!(bytes, vec![0xaa, 0, 0, 0x01, 0x00, 0, 0, 0, 0, 0, 0, 0, 0]);
    assert_eq!(Message::decode(&bytes[1..]), Ok(message));
}

#[test]
fn counts_that_differ_from_the_entries_are_refused() {
    let mut buffer: Vec<u8> = vec![1, 2];
    let mut message = sample_message();
    message.header.qd_count = 2;
    assert_eq!(message.serialize_to(&mut buffer), Err(Error::CountMismatch(Section::Question)));
    let mut message = sample_message();
    message.answers.pop();
    assert_eq!(message.serialize_to(&mut buffer), Err(Error::CountMismatch(Section::Answer)));
    let mut message = sample_message();
    message.header.ns_count = 0;
    assert_eq!(message.serialize_to(&mut buffer), Err(Error::CountMismatch(Section::Authority)));
    let mut message = sample_message();
    message.additionals.clear();
    assert_eq!(message.serialize_to(&mut buffer), Err(Error::CountMismatch(Section::Additional)));
    assert_eq!(buffer, vec![1, 2]);
}

#[test]
fn an_entry_that_cannot_be_encoded_stops_the_message() {
    let mut buffer: Vec<u8> = vec![1, 2];
    let mut message = sample_message();
    message.answers[1].name = DomainName { labels: vec![Vec::new()] };
    assert_eq!(message.serialize_to(&mut buffer), Err(Error::EmptyLabel));
    let mut message = sample_message();
    message.questions[0].qname = DomainName { labels: vec![vec![b'x'; 100]] };
    message.additionals[0].rdata = RData::Unknown(vec![0; 65536]);
    assert_eq!(message.serialize_to(&mut buffer), Err(Error::LabelTooLong));
    let mut message = sample_message();
    message.additionals[0].rdata = RData::Unknown(vec![0; 65536]);
    assert_eq!(message.serialize_to(&mut buffer), Err(Error::RDataLength));
    assert_eq!(buffer, vec![1, 2]);
}

#[test]
fn errors_in_an_entry_come_through_as_they_are() {
    // the question has an unknown class
    let mut bytes = compressed_response(1);
    bytes[31] = 9;
    assert_eq!(Message::decode(&bytes), Err(Error::UnknownQClass));
    // the name of the answer points at itself
    let mut bytes = compressed_response(1);
    bytes[33] = 32;
    assert_eq!(Message::decode(&bytes), Err(Error::PointerNotEarlier));
    // the address has five bytes
    let mut bytes = compressed_response(1);
    bytes[43] = 5;
    bytes.push(0);
    assert_eq!(Message::decode(&bytes), Err(Error::RDataLength));
    // the label of the question has reserved bits
    let mut bytes = compressed_response(1);
    bytes[12] = 0x83;
    assert_eq!(Message::decode(&bytes), Err(Error::ReservedLabelType));
}

#[test]
fn the_truncation_bit_is_read_from_the_header() {
    let mut bytes = compressed_response(1);
    bytes[2] = 0x83;
    let message = Message::decode(&bytes).unwrap();
    assert!(message.is_truncated());
    assert!(message.header.flags.bitflags.truncation);
}
