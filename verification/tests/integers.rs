use bytegen::{be_u16, be_u32, be_u64, be_u8, le_u16, le_u32, le_u64, le_u8};
use bytegen::{Cursor, GenError, SerializeFn};

#[test]
fn be_u32_writes_most_significant_byte_first() {
    let mut buf = [0u8; 4];
    {
        let out = Cursor::new(&mut buf);
        let rest = be_u32(0x01020304).serialize(out).unwrap();
        assert_eq!(rest.len(), 0);
        assert_eq!(rest.offset(), 4);
    }
    assert_eq!(buf, [0x01, 0x02, 0x03, 0x04]);
}

#[test]
fn le_u32_writes_least_significant_byte_first() {
    let mut buf = [0u8; 4];
    {
        let out = Cursor::new(&mut buf);
        let rest = le_u32(0x01020304).serialize(out).unwrap();
        assert_eq!(rest.len(), 0);
    }
    assert_eq!(buf, [0x04, 0x03, 0x02, 0x01]);
}

#[test]
fn be_u8_and_le_u8_write_the_byte_itself() {
    let mut buf = [0u8; 3];
    {
        let out = Cursor::new(&mut buf);
        let out = be_u8(0xAB).serialize(out).unwrap();
        let out = le_u8(0xCD).serialize(out).unwrap();
        assert_eq!(out.len(), 1);
    }
    assert_eq!(buf, [0xAB, 0xCD, 0x00]);
}

#[test]
fn be_u16_writes_high_byte_then_low_byte() {
    let mut buf = [0xEEu8; 3];
    {
        let out = Cursor::new(&mut buf);
        let rest = be_u16(0x1234).serialize(out).unwrap();
        assert_eq!(rest.len(), 1);
    }
    assert_eq!(buf, [0x12, 0x34, 0xEE]);
}

#[test]
fn le_u16_writes_low_byte_then_high_byte() {
    let mut buf = [0xEEu8; 3];
    {
        let out = Cursor::new(&mut buf);
        let rest = le_u16(0x1234).serialize(out).unwrap();
        assert_eq!(rest.len(), 1);
    }
    assert_eq!(buf, [0x34, 0x12, 0xEE]);
}

#[test]
fn be_u64_writes_eight_bytes_in_order() {
    let mut buf = [0u8; 9];
    {
        let out = Cursor::new(&mut buf);
        let rest = be_u64(0x0102030405060708).serialize(out).unwrap();
        assert_eq!(rest.len(), 1);
    }
    assert_eq!(buf, [1, 2, 3, 4, 5, 6, 7, 8, 0]);
}

#[test]
fn le_u64_writes_eight_bytes_in_reverse_order() {
    let mut buf = [0u8; 9];
    {
        let out = Cursor::new(&mut buf);
        let rest = le_u64(0x0102030405060708).serialize(out).unwrap();
        assert_eq!(rest.len(), 1);
    }
    assert_eq!(buf, [8, 7, 6, 5, 4, 3, 2, 1, 0]);
}

#[test]
fn extreme_values_keep_every_bit() {
    let mut buf = [0u8; 30];
    {
        let out = Cursor::new(&mut buf);
        let out = be_u8(u8::MAX).serialize(out).unwrap();
        let out = be_u16(u16::MAX).serialize(out).unwrap();
        let out = be_u32(u32::MAX).serialize(out).unwrap();
        let out = be_u64(u64::MAX).serialize(out).unwrap();
        let out = le_u8(0).serialize(out).unwrap();
        let out = le_u16(0).serialize(out).unwrap();
        let out = le_u32(0).serialize(out).unwrap();
        let out = le_u64(0).serialize(out).unwrap();
        assert_eq!(out.len(), 0);
    }
    assert_eq!(&buf[..15], &[0xFFu8; 15][..]);
    assert_eq!(&buf[15..], &[0u8; 15][..]);
}

#[test]
fn big_endian_matches_the_standard_decoders() {
    let values: [u64; 5] = [0, 1, 0x80, 0x0123_4567_89AB_CDEF, u64::MAX];
    for v in values {
        let mut b8 = [0u8; 8];
        be_u64(v).serialize(Cursor::new(&mut b8)).unwrap();
        assert_eq!(u64::from_be_bytes(b8), v);
        assert_eq!(b8[0], (v >> 56) as u8);

        let mut b4 = [0u8; 4];
        be_u32(v as u32).serialize(Cursor::new(&mut b4)).unwrap();
        assert_eq!(u32::from_be_bytes(b4), v as u32);
        assert_eq!(b4[0], ((v as u32) >> 24) as u8);

        let mut b2 = [0u8; 2];
        be_u16(v as u16).serialize(Cursor::new(&mut b2)).unwrap();
        assert_eq!(u16::from_be_bytes(b2), v as u16);
        assert_eq!(b2[0], ((v as u16) >> 8) as u8);
    }
}

#[test]
fn little_endian_matches_the_standard_decoders_and_reverses_big_endian() {
    let values: [u64; 5] = [0, 1, 0x80, 0x0123_4567_89AB_CDEF, u64::MAX];
    for v in values {
        let mut le = [0u8; 8];
        le_u64(v).serialize(Cursor::new(&mut le)).unwrap();
        assert_eq!(u64::from_le_bytes(le), v);
        let mut be = [0u8; 8];
        be_u64(v).serialize(Cursor::new(&mut be)).unwrap();
        be.reverse();
        assert_eq!(le, be);

        let mut le4 = [0u8; 4];
        le_u32(v as u32).serialize(Cursor::new(&mut le4)).unwrap();
        assert_eq!(u32::from_le_bytes(le4), v as u32);

        let mut le2 = [0u8; 2];
        le_u16(v as u16).serialize(Cursor::new(&mut le2)).unwrap();
        assert_eq!(u16::from_le_bytes(le2), v as u16);
    }
}

#[test]
fn be_u32_refuses_a_short_buffer() {
    let mut buf = [7u8; 3];
    {
        let out = Cursor::new(&mut buf);
        let r = be_u32(0x01020304).serialize(out);
        assert_eq!(r.err(), Some(GenError::BufferTooSmall(4)));
    }
    assert_eq!(buf, [7, 7, 7]);
}

#[test]
fn every_integer_writer_refuses_a_buffer_one_byte_short() {
    let mut b0 = [9u8; 0];
    assert_eq!(be_u8(1).serialize(Cursor::new(&mut b0)).err(), Some(GenError::BufferTooSmall(1)));
    assert_eq!(le_u8(1).serialize(Cursor::new(&mut b0)).err(), Some(GenError::BufferTooSmall(1)));
    let mut b1 = [9u8; 1];
    assert_eq!(be_u16(1).serialize(Cursor::new(&mut b1)).err(), Some(GenError::BufferTooSmall(2)));
    assert_eq!(le_u16(1).serialize(Cursor::new(&mut b1)).err(), Some(GenError::BufferTooSmall(2)));
    assert_eq!(b1, [9]);
    let mut b3 = [9u8; 3];
    assert_eq!(be_u32(1).serialize(Cursor::new(&mut b3)).err(), Some(GenError::BufferTooSmall(4)));
    assert_eq!(le_u32(1).serialize(Cursor::new(&mut b3)).err(), Some(GenError::BufferTooSmall(4)));
    assert_eq!(b3, [9, 9, 9]);
    let mut b7 = [9u8; 7];
    assert_eq!(be_u64(1).serialize(Cursor::new(&mut b7)).err(), Some(GenError::BufferTooSmall(8)));
    assert_eq!(le_u64(1).serialize(Cursor::new(&mut b7)).err(), Some(GenError::BufferTooSmall(8)));
    assert_eq!(b7, [9; 7]);
}

#[test]
fn a_writer_can_be_run_again() {
    let w = be_u16(0xBEEF);
    let mut buf = [0u8; 4];
    {
        let out = Cursor::new(&mut buf);
        let out = w.serialize(out).unwrap();
        let out = w.serialize(out).unwrap();
        assert_eq!(out.len(), 0);
    }
    assert_eq!(buf, [0xBE, 0xEF, 0xBE, 0xEF]);
}
