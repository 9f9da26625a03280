use dns_wire::error::Error;
use dns_wire::wire::{
    copy_range, read_u16_at, read_u32_at, read_u8_at, write_bytes, write_u16, write_u32, write_u8,
    Cursor,
};

#[test]
fn integers_are_written_most_significant_byte_first() {
    let mut buffer: Vec<u8> = vec![0xaa];
    assert_eq!(write_u8(&mut buffer, 0x01), 1);
    assert_eq!(write_u16(&mut buffer, 0x0203), 2);
    assert_eq!(write_u32(&mut buffer, 0x0405_0607), 4);
    write_bytes(&mut buffer, &[8, 9]);
    assert_eq!(buffer, vec![0xaa, 1, 2, 3, 4, 5, 6, 7, 8, 9]);
}

#[test]
fn integers_are_read_most_significant_byte_first() {
    let b: Vec<u8> = vec![0x12, 0x34, 0x56, 0x78, 0x9a];
    assert_eq!(read_u8_at(&b, 4), Ok(0x9a));
    assert_eq!(read_u16_at(&b, 0), Ok(0x1234));
    assert_eq!(read_u16_at(&b, 3), Ok(0x789a));
    assert_eq!(read_u32_at(&b, 0), Ok(0x1234_5678));
    assert_eq!(read_u32_at(&b, 1), Ok(0x3456_789a));
    assert_eq!(copy_range(&b, 1, 3), vec![0x34, 0x56, 0x78]);
}

#[test]
fn reads_past_the_end_are_truncated() {
    let b: Vec<u8> = vec![1, 2, 3];
    assert_eq!(read_u8_at(&b, 3), Err(Error::Truncated));
    assert_eq!(read_u16_at(&b, 2), Err(Error::Truncated));
    assert_eq!(read_u32_at(&b, 0), Err(Error::Truncated));
    assert_eq!(read_u16_at(&b, usize::MAX), Err(Error::Truncated));
    assert_eq!(read_u32_at(&b, usize::MAX - 1), Err(Error::Truncated));
}

#[test]
fn cursor_moves_past_what_it_read_and_stays_on_errors() {
    let b: Vec<u8> = vec![0x01, 0x02, 0x03, 0x04, 0x05, 0x06, 0x07, 0x08];
    let mut c = Cursor::new(b.as_slice());
    assert_eq!(c.position(), 0);
    assert_eq!(c.read_u8(), Ok(1));
    assert_eq!(c.position(), 1);
    assert_eq!(c.read_u16(), Ok(0x0203));
    assert_eq!(c.position(), 3);
    assert_eq!(c.read_u32(), Ok(0x0405_0607));
    assert_eq!(c.position(), 7);
    assert_eq!(c.remaining(), 1);
    assert_eq!(c.read_u16(), Err(Error::Truncated));
    assert_eq!(c.read_u32(), Err(Error::Truncated));
    assert_eq!(c.position(), 7);
    assert_eq!(c.read_u8(), Ok(8));
    assert_eq!(c.read_u8(), Err(Error::Truncated));
    assert_eq!(c.position(), 8);
    c.set_position(2);
    assert_eq!(c.read_u8(), Ok(3));
    c.set_position(100);
    assert_eq!(c.remaining(), 0);
    assert_eq!(c.read_u8(), Err(Error::Truncated));
}

#[test]
fn written_integers_read_back() {
    let values: Vec<u16> = vec![0, 1, 255, 256, 0x1234, 0xff00, 0xffff];
    for v in values {
        let mut buffer: Vec<u8> = Vec::new();
        write_u16(&mut buffer, v);
        assert_eq!(buffer.len(), 2);
        assert_eq!(read_u16_at(&buffer, 0), Ok(v));
    }
    let values: Vec<u32> = vec![0, 1, 0x0100_0000, 0x00ff_ff00, 0xdead_beef, 0xffff_ffff];
    for v in values {
        let mut buffer: Vec<u8> = Vec::new();
        write_u32(&mut buffer, v);
        assert_eq!(buffer.len(), 4);
        assert_eq!(read_u32_at(&buffer, 0), Ok(v));
    }
}
