use dns_wire::error::Error;
use dns_wire::rfc::flags::{BitFlags, Flags};
use dns_wire::rfc::opcode::OpCode;
use dns_wire::rfc::packet_type::PacketType;
use dns_wire::rfc::response_code::ResponseCode;
use dns_wire::wire::Cursor;

fn all_set() -> BitFlags {
    BitFlags {
        authorative_answer: true,
        truncation: true,
        recursion_desired: true,
        recursion_available: true,
        z: true,
        authentic_data: true,
        checking_disabled: true,
    }
}

#[test]
fn try_from() {
    let x: u16 = 0b_1000_1111_1111_0001;
    let v = Flags::try_from(x).unwrap();
    assert_eq!(v.qr, PacketType::Response);
    assert_eq!(v.op_code, OpCode::IQuery);
    assert!(v.bitflags.authorative_answer);
    assert!(v.bitflags.truncation);
    assert!(v.bitflags.recursion_desired);
    assert!(v.bitflags.recursion_available);
    assert!(v.bitflags.z);
    assert!(v.bitflags.authentic_data);
    assert!(v.bitflags.checking_disabled);
    assert_eq!(v.response_code, ResponseCode::FormErr);
}

#[test]
fn serialize_to() {
    let bitflags = BitFlags {
        authorative_answer: true,
        truncation: true,
        recursion_desired: true,
        recursion_available: true,
        z: true,
        authentic_data: true,
        checking_disabled: true,
    };

    let flags = Flags {
        qr: PacketType::Response,
        op_code: OpCode::IQuery,
        bitflags,
        response_code: ResponseCode::NoError,
    };

    let mut buffer: Vec<u8> = Vec::new();
    assert!(flags.serialize_to(&mut buffer).is_ok());
    assert_eq!(buffer, &[0b1000_1111, 0b1111_0000]);
}

#[test]
fn deserialize_from() {
    let b = vec![0b_10001111, 0b_1111_0001];
    let mut buffer = Cursor::new(b.as_slice());
    let mut v = Flags::default();
    assert!(v.deserialize_from(&mut buffer).is_ok());
    assert_eq!(v.qr, PacketType::Response);
    assert_eq!(v.op_code, OpCode::IQuery);
    assert!(v.bitflags.authorative_answer);
    assert!(v.bitflags.truncation);
    assert!(v.bitflags.recursion_desired);
    assert!(v.bitflags.recursion_available);
    assert!(v.bitflags.z);
    assert!(v.bitflags.authentic_data);
    assert!(v.bitflags.checking_disabled);
    assert_eq!(v.response_code, ResponseCode::FormErr);
}

#[test]
fn deserialize_from_moves_the_cursor_by_two() {
    let b: Vec<u8> = vec![0x01, 0x00, 0xff];
    let mut buffer = Cursor::new(b.as_slice());
    let mut v = Flags::default();
    assert_eq!(v.deserialize_from(&mut buffer), Ok(()));
    assert_eq!(buffer.position(), 2);
    assert_eq!(buffer.remaining(), 1);
    assert_eq!(v.qr, PacketType::Query);
    assert!(v.bitflags.recursion_desired);
    assert!(!v.bitflags.truncation);
}

#[test]
fn deserialize_from_short_buffer_is_truncated() {
    let b: Vec<u8> = vec![0x81];
    let mut buffer = Cursor::new(b.as_slice());
    let mut v = Flags::default();
    assert_eq!(v.deserialize_from(&mut buffer), Err(Error::Truncated));
    assert_eq!(buffer.position(), 0);
    assert_eq!(v, Flags::default());
}

#[test]
fn deserialize_from_unknown_opcode_leaves_all_as_it_was() {
    // opcode 7 in bits 14 to 11
    let b: Vec<u8> = vec![0b0011_1000, 0x00];
    let mut buffer = Cursor::new(b.as_slice());
    let mut v = Flags::default();
    assert_eq!(v.deserialize_from(&mut buffer), Err(Error::UnknownOpCode));
    assert_eq!(buffer.position(), 0);
    assert_eq!(v, Flags::default());
}

#[test]
fn default_flags_ask_for_recursion() {
    let f = Flags::default();
    assert_eq!(f.qr, PacketType::Query);
    assert_eq!(f.op_code, OpCode::Query);
    assert_eq!(f.response_code, ResponseCode::NoError);
    assert_eq!(
        f.bitflags,
        BitFlags {
            authorative_answer: false,
            truncation: false,
            recursion_desired: true,
            recursion_available: false,
            z: false,
            authentic_data: false,
            checking_disabled: false,
        }
    );
    assert_eq!(BitFlags::default(), f.bitflags);
    assert_eq!(f.word(), 0x0100);
}

#[test]
fn set_response_code_changes_only_the_response_code() {
    let mut f = Flags {
        qr: PacketType::Response,
        op_code: OpCode::Status,
        bitflags: all_set(),
        response_code: ResponseCode::NoError,
    };
    f.set_response_code(ResponseCode::NXDomain);
    assert_eq!(
        f,
        Flags {
            qr: PacketType::Response,
            op_code: OpCode::Status,
            bitflags: all_set(),
            response_code: ResponseCode::NXDomain,
        }
    );
}

#[test]
fn word_holds_each_field_at_its_place() {
    let none = BitFlags {
        authorative_answer: false,
        truncation: false,
        recursion_desired: false,
        recursion_available: false,
        z: false,
        authentic_data: false,
        checking_disabled: false,
    };
    let base = Flags {
        qr: PacketType::Query,
        op_code: OpCode::Query,
        bitflags: none,
        response_code: ResponseCode::NoError,
    };
    assert_eq!(base.word(), 0);
    assert_eq!(Flags { qr: PacketType::Response, ..base }.word(), 0x8000);
    assert_eq!(Flags { op_code: OpCode::DOS, ..base }.word(), 6 << 11);
    assert_eq!(Flags { op_code: OpCode::Update, ..base }.word(), 5 << 11);
    assert_eq!(Flags { response_code: ResponseCode::DSOTYPENI, ..base }.word(), 11);
    assert_eq!(Flags { bitflags: BitFlags { authorative_answer: true, ..none }, ..base }.word(), 1 << 10);
    assert_eq!(Flags { bitflags: BitFlags { truncation: true, ..none }, ..base }.word(), 1 << 9);
    assert_eq!(Flags { bitflags: BitFlags { recursion_desired: true, ..none }, ..base }.word(), 1 << 8);
    assert_eq!(Flags { bitflags: BitFlags { recursion_available: true, ..none }, ..base }.word(), 1 << 7);
    assert_eq!(Flags { bitflags: BitFlags { z: true, ..none }, ..base }.word(), 1 << 6);
    assert_eq!(Flags { bitflags: BitFlags { authentic_data: true, ..none }, ..base }.word(), 1 << 5);
    assert_eq!(Flags { bitflags: BitFlags { checking_disabled: true, ..none }, ..base }.word(), 1 << 4);
}

#[test]
fn every_word_decodes_and_encodes_back_or_is_refused() {
    let mut value: u32 = 0;
    while value <= 0xffff {
        let word = value as u16;
        let opcode = (word >> 11) & 15;
        let rcode = word & 15;
        match Flags::try_from(word) {
            Ok(flags) => {
                assert!(opcode <= 6 && rcode <= 11);
                assert_eq!(flags.word(), word);
                assert_eq!(Flags::try_from(flags.word()), Ok(flags));
                let mut buffer: Vec<u8> = Vec::new();
                assert_eq!(flags.serialize_to(&mut buffer), Ok(2));
                assert_eq!(buffer, vec![(word >> 8) as u8, (word & 0xff) as u8]);
            }
            Err(Error::UnknownOpCode) => assert!(opcode > 6),
            Err(Error::UnknownResponseCode) => assert!(opcode <= 6 && rcode > 11),
            Err(other) => panic!("unexpected error {:?}", other),
        }
        value += 1;
    }
}

#[test]
fn unknown_codes_are_refused() {
    assert_eq!(PacketType::try_from(2), Err(Error::UnknownPacketType));
    assert_eq!(PacketType::try_from(1), Ok(PacketType::Response));
    assert_eq!(OpCode::try_from(7), Err(Error::UnknownOpCode));
    assert_eq!(OpCode::try_from(4), Ok(OpCode::Notify));
    assert_eq!(ResponseCode::try_from(12), Err(Error::UnknownResponseCode));
    assert_eq!(ResponseCode::try_from(3), Ok(ResponseCode::NXDomain));
    assert_eq!(Flags::try_from(0x000c), Err(Error::UnknownResponseCode));
    assert_eq!(Flags::try_from(0x380c), Err(Error::UnknownOpCode));
    assert_eq!(ResponseCode::Refused.code(), 5);
    assert_eq!(ResponseCode::Refused.name(), "Refused");
    assert_eq!(OpCode::Status.code(), 2);
    assert_eq!(PacketType::Query.code(), 0);
}

#[test]
fn flags_are_written_as_the_marks_that_are_set() {
    let response = Flags {
        qr: PacketType::Response,
        op_code: OpCode::Query,
        bitflags: all_set(),
        response_code: ResponseCode::NXDomain,
    };
    assert_eq!(response.to_string(), "ad aa cd ra rd tc NXDomain ");
    assert_eq!(Flags::default().to_string(), "rd ");
    let query = Flags {
        qr: PacketType::Query,
        op_code: OpCode::Query,
        bitflags: BitFlags {
            authorative_answer: false,
            truncation: true,
            recursion_desired: false,
            recursion_available: false,
            z: true,
            authentic_data: true,
            checking_disabled: false,
        },
        response_code: ResponseCode::Refused,
    };
    assert_eq!(query.to_string(), "ad tc ");
    let plain = Flags {
        qr: PacketType::Response,
        op_code: OpCode::Query,
        bitflags: BitFlags { recursion_desired: false, ..BitFlags::default() },
        response_code: ResponseCode::NoError,
    };
    assert_eq!(plain.to_string(), "NoError ");
}
