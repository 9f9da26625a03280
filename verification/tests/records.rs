use dns_wire::error::Error;
use dns_wire::rfc::domain::DomainName;
use dns_wire::rfc::rdata::{RData, AFSDB, NS, TYPE_A, TYPE_AFSDB, TYPE_NS};
use dns_wire::rfc::resource_record::ResourceRecord;
use dns_wire::wire::Cursor;

fn name(text: &str) -> DomainName {
    DomainName::try_from(text).unwrap()
}

fn encoded(text: &str) -> Vec<u8> {
    let mut buffer: Vec<u8> = Vec::new();
    name(text).serialize_to(&mut buffer).unwrap();
    buffer
}

#[test]
fn ns_data_is_a_name() {
    let mut buffer = encoded("panix.netmeister.org.");
    buffer.extend_from_slice(&[0xc0, 0x00]);
    let (ns, next) = NS::decode_at(&buffer, 22).unwrap();
    assert_eq!(ns.to_string(), "panix.netmeister.org.");
    assert_eq!(next, 24);

    let mut cursor = Cursor::new(buffer.as_slice());
    let mut ns = NS::default();
    assert_eq!(ns.to_string(), ".");
    assert_eq!(ns.deserialize_from(&mut cursor), Ok(()));
    assert_eq!(ns.to_string(), "panix.netmeister.org.");
    assert_eq!(cursor.position(), 22);
    assert_eq!(ns, NS(name("panix.netmeister.org.")));
}

#[test]
fn afsdb_data_is_a_subtype_and_a_name() {
    let mut buffer: Vec<u8> = vec![0x00, 0x01];
    buffer.extend_from_slice(&encoded("panix.netmeister.org."));
    let (data, next) = AFSDB::decode_at(&buffer, 0).unwrap();
    assert_eq!(data.subtype, 1u16);
    assert_eq!(data.hostname.to_string(), "panix.netmeister.org.");
    assert_eq!(next, 24);

    let mut cursor = Cursor::new(buffer.as_slice());
    let mut data = AFSDB::default();
    assert_eq!(data.deserialize_from(&mut cursor), Ok(()));
    assert_eq!(data, AFSDB { subtype: 1, hostname: name("panix.netmeister.org.") });
    assert_eq!(cursor.position(), 24);

    let short: Vec<u8> = vec![0x00];
    assert_eq!(AFSDB::decode_at(&short, 0), Err(Error::Truncated));
    let mut cursor = Cursor::new(short.as_slice());
    assert_eq!(data.deserialize_from(&mut cursor), Err(Error::Truncated));
    assert_eq!(cursor.position(), 0);
    assert_eq!(data.subtype, 1);
}

#[test]
fn record_data_is_decoded_by_the_type_of_the_record() {
    let buffer: Vec<u8> = vec![9, 192, 0, 2, 1, 9];
    assert_eq!(RData::decode_at(&buffer, 1, TYPE_A, 4), Ok(RData::A(0xc000_0201)));

    let mut buffer = encoded("ns1.example.");
    buffer.insert(0, 7);
    assert_eq!(RData::decode_at(&buffer, 1, TYPE_NS, 13), Ok(RData::NS(NS(name("ns1.example.")))));

    let mut buffer: Vec<u8> = vec![0x00, 0x02];
    buffer.extend_from_slice(&encoded("afs.example."));
    assert_eq!(
        RData::decode_at(&buffer, 0, TYPE_AFSDB, 15),
        Ok(RData::AFSDB(AFSDB { subtype: 2, hostname: name("afs.example.") }))
    );
}

#[test]
fn data_of_a_type_without_a_layout_is_kept_as_bytes() {
    let buffer: Vec<u8> = vec![1, 2, 3, 4, 5, 6];
    assert_eq!(RData::decode_at(&buffer, 1, 99, 3), Ok(RData::Unknown(vec![2, 3, 4])));
    assert_eq!(RData::decode_at(&buffer, 6, 99, 0), Ok(RData::Unknown(vec![])));
    assert_eq!(RData::decode_at(&buffer, 0, 0xffff, 6), Ok(RData::Unknown(vec![1, 2, 3, 4, 5, 6])));
}

#[test]
fn data_must_lie_within_the_message() {
    let buffer: Vec<u8> = vec![1, 2, 3, 4, 5, 6];
    assert_eq!(RData::decode_at(&buffer, 4, 99, 3), Err(Error::Truncated));
    assert_eq!(RData::decode_at(&buffer, 7, 99, 0), Err(Error::Truncated));
    assert_eq!(RData::decode_at(&buffer, 3, TYPE_A, 4), Err(Error::Truncated));
}

#[test]
fn data_must_fill_its_length() {
    let buffer: Vec<u8> = vec![192, 0, 2, 1, 0, 0];
    assert_eq!(RData::decode_at(&buffer, 0, TYPE_A, 3), Err(Error::RDataLength));
    assert_eq!(RData::decode_at(&buffer, 0, TYPE_A, 5), Err(Error::RDataLength));

    let mut buffer = encoded("ns1.example.");
    buffer.push(0);
    assert_eq!(RData::decode_at(&buffer, 0, TYPE_NS, 14), Err(Error::RDataLength));
    assert_eq!(RData::decode_at(&buffer, 0, TYPE_NS, 12), Err(Error::RDataLength));

    let mut buffer: Vec<u8> = vec![0x00, 0x02];
    buffer.extend_from_slice(&encoded("afs.example."));
    buffer.push(0);
    assert_eq!(RData::decode_at(&buffer, 0, TYPE_AFSDB, 1), Err(Error::RDataLength));
    assert_eq!(RData::decode_at(&buffer, 0, TYPE_AFSDB, 16), Err(Error::RDataLength));
    assert_eq!(RData::decode_at(&buffer, 0, TYPE_AFSDB, 14), Err(Error::RDataLength));
}

#[test]
fn errors_inside_record_data_come_through() {
    let buffer: Vec<u8> = vec![0x40, 0, 0, 0];
    assert_eq!(RData::decode_at(&buffer, 0, TYPE_NS, 4), Err(Error::ReservedLabelType));
    let buffer: Vec<u8> = vec![0, 1, 0xc0, 0x02];
    assert_eq!(RData::decode_at(&buffer, 0, TYPE_AFSDB, 4), Err(Error::PointerNotEarlier));
}

#[test]
fn record_data_knows_its_type() {
    assert!(RData::A(1).matches(TYPE_A));
    assert!(!RData::A(1).matches(TYPE_NS));
    assert!(RData::NS(NS::default()).matches(TYPE_NS));
    assert!(RData::AFSDB(AFSDB::default()).matches(TYPE_AFSDB));
    assert!(RData::Unknown(vec![]).matches(99));
    assert!(!RData::Unknown(vec![]).matches(TYPE_A));
    assert!(!RData::Unknown(vec![]).matches(TYPE_AFSDB));
}

#[test]
fn record_data_is_encoded_without_compression() {
    let mut buffer: Vec<u8> = vec![5];
    assert_eq!(RData::A(0x0a00_0001).serialize_to(&mut buffer), Ok(4));
    assert_eq!(buffer, vec![5, 10, 0, 0, 1]);

    let mut buffer: Vec<u8> = Vec::new();
    assert_eq!(RData::NS(NS(name("a.b."))).serialize_to(&mut buffer), Ok(5));
    assert_eq!(buffer, vec![1, b'a', 1, b'b', 0]);

    let mut buffer: Vec<u8> = Vec::new();
    assert_eq!(RData::AFSDB(AFSDB { subtype: 0x0102, hostname: name("a.") }).serialize_to(&mut buffer), Ok(5));
    assert_eq!(buffer, vec![1, 2, 1, b'a', 0]);

    let mut buffer: Vec<u8> = Vec::new();
    assert_eq!(RData::Unknown(vec![7, 8, 9]).serialize_to(&mut buffer), Ok(3));
    assert_eq!(buffer, vec![7, 8, 9]);
}

#[test]
fn record_data_that_cannot_be_declared_is_refused() {
    let mut buffer: Vec<u8> = vec![1];
    assert_eq!(RData::Unknown(vec![0; 65536]).serialize_to(&mut buffer), Err(Error::RDataLength));
    assert_eq!(buffer, vec![1]);
    assert_eq!(RData::Unknown(vec![0; 65536]).check(), Err(Error::RDataLength));
    assert_eq!(RData::Unknown(vec![0; 65535]).check(), Ok(()));

    let bad = DomainName { labels: vec![Vec::new()] };
    assert_eq!(RData::NS(NS(bad.clone())).serialize_to(&mut buffer), Err(Error::EmptyLabel));
    assert_eq!(RData::AFSDB(AFSDB { subtype: 1, hostname: bad }).serialize_to(&mut buffer), Err(Error::EmptyLabel));
    assert_eq!(buffer, vec![1]);
}

fn sample_record() -> (ResourceRecord, Vec<u8>) {
    let record = ResourceRecord {
        name: name("example.org."),
        rtype: TYPE_AFSDB,
        class: 1,
        ttl: 0x0001_5180,
        rdata: RData::AFSDB(AFSDB { subtype: 1, hostname: name("afs.example.org.") }),
    };
    let mut bytes = encoded("example.org.");
    bytes.extend_from_slice(&[0, 18, 0, 1, 0, 1, 0x51, 0x80, 0, 19, 0, 1]);
    bytes.extend_from_slice(&encoded("afs.example.org."));
    (record, bytes)
}

#[test]
fn records_are_encoded_field_by_field() {
    let (record, bytes) = sample_record();
    let mut buffer: Vec<u8> = Vec::new();
    assert_eq!(record.serialize_to(&mut buffer), Ok(bytes.len()));
    assert_eq!(buffer, bytes);
    assert_eq!(record.check(), Ok(()));
}

#[test]
fn encoded_records_decode_to_themselves() {
    let (record, bytes) = sample_record();
    let mut buffer: Vec<u8> = vec![0xee; 5];
    buffer.extend_from_slice(&bytes);
    buffer.push(0xee);
    assert_eq!(ResourceRecord::decode_at(&buffer, 5), Ok((record.clone(), 5 + bytes.len())));

    let mut cursor = Cursor::new(buffer.as_slice());
    cursor.set_position(5);
    let mut read = ResourceRecord {
        name: DomainName::root(),
        rtype: 0,
        class: 0,
        ttl: 0,
        rdata: RData::Unknown(Vec::new()),
    };
    assert_eq!(read.deserialize_from(&mut cursor), Ok(()));
    assert_eq!(read, record);
    assert_eq!(cursor.position(), 5 + bytes.len());

    let others = vec![
        ResourceRecord { name: DomainName::root(), rtype: TYPE_A, class: 1, ttl: 0, rdata: RData::A(0x7f00_0001) },
        ResourceRecord { name: name("org."), rtype: TYPE_NS, class: 3, ttl: u32::MAX, rdata: RData::NS(NS(name("a.org."))) },
        ResourceRecord { name: name("x.org."), rtype: 16, class: 1, ttl: 60, rdata: RData::Unknown(vec![2, b'h', b'i']) },
    ];
    for record in others {
        let mut buffer: Vec<u8> = vec![1, 2, 3];
        let written = record.serialize_to(&mut buffer).unwrap();
        assert_eq!(buffer.len(), 3 + written);
        assert_eq!(ResourceRecord::decode_at(&buffer, 3), Ok((record, buffer.len())));
    }
}

#[test]
fn records_that_run_out_of_bytes_are_truncated() {
    let (_, bytes) = sample_record();
    let mut cut = bytes.len() - 1;
    loop {
        assert_eq!(ResourceRecord::decode_at(&bytes[..cut], 0), Err(Error::Truncated));
        if cut == 0 {
            break;
        }
        cut -= 1;
    }
    let mut cursor = Cursor::new(&bytes[..10]);
    let mut read = sample_record().0;
    assert_eq!(read.deserialize_from(&mut cursor), Err(Error::Truncated));
    assert_eq!(cursor.position(), 0);
    assert_eq!(read, sample_record().0);
}

#[test]
fn a_record_with_a_name_outside_the_limits_is_not_encoded() {
    let (mut record, _) = sample_record();
    record.name = DomainName { labels: vec![vec![b'a'; 64]] };
    let mut buffer: Vec<u8> = vec![3];
    assert_eq!(record.serialize_to(&mut buffer), Err(Error::LabelTooLong));
    assert_eq!(buffer, vec![3]);
    let (mut record, _) = sample_record();
    record.rdata = RData::Unknown(vec![0; 70000]);
    assert_eq!(record.serialize_to(&mut buffer), Err(Error::RDataLength));
    assert_eq!(buffer, vec![3]);
}

#[test]
fn afsdb_data_is_written_as_subtype_and_host() {
    let data = AFSDB { subtype: 1, hostname: name("panix.netmeister.org.") };
    assert_eq!(data.to_string(), "1 panix.netmeister.org. ");
    assert_eq!(AFSDB::default().to_string(), "0 . ");
    assert_eq!(AFSDB { subtype: 10, hostname: name("a.") }.to_string(), "10 a. ");
    assert_eq!(AFSDB { subtype: 65535, hostname: name("a.") }.to_string(), "65535 a. ");
    assert_eq!(AFSDB { subtype: 40209, hostname: name("a.") }.to_string(), "40209 a. ");
}
