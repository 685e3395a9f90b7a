use bytegen::{be_u16, be_u32, be_u8, pair, position, skip, slice};
use bytegen::{Cursor, GenError, SerializeFn};

#[test]
fn position_yields_the_bytes_that_were_written() {
    let mut buf = [0u8; 6];
    {
        let w = position(pair(be_u16(0x0102), be_u8(0x03)));
        let (span, rest) = w.capture(Cursor::new(&mut buf)).unwrap();
        assert_eq!(span.len(), 3);
        assert_eq!(span, &[1u8, 2, 3][..]);
        assert_eq!(rest.len(), 3);
    }
    assert_eq!(buf, [1, 2, 3, 0, 0, 0]);
}

#[test]
fn position_leaves_out_what_was_written_before() {
    let mut buf = [0u8; 6];
    {
        let out = Cursor::new(&mut buf);
        let out = be_u16(0xAAAA).serialize(out).unwrap();
        let (span, rest) = position(slice(&[7u8, 8, 9][..])).capture(out).unwrap();
        assert_eq!(span, &[7u8, 8, 9][..]);
        assert_eq!(rest.len(), 1);
        let rest = be_u8(0x10).serialize(rest).unwrap();
        assert_eq!(rest.len(), 0);
        assert_eq!(span.iter().map(|b| *b as u32).sum::<u32>(), 24);
    }
    assert_eq!(buf, [0xAA, 0xAA, 7, 8, 9, 0x10]);
}

#[test]
fn position_of_a_writer_that_writes_nothing_is_empty() {
    let mut buf = [5u8; 2];
    {
        let (span, rest) = position(skip(0)).capture(Cursor::new(&mut buf)).unwrap();
        assert_eq!(span.len(), 0);
        assert_eq!(rest.len(), 2);
    }
    assert_eq!(buf, [5, 5]);
}

#[test]
fn position_passes_the_failure_on() {
    let mut buf = [5u8; 3];
    {
        let r = position(be_u32(1)).capture(Cursor::new(&mut buf));
        assert_eq!(r.err(), Some(GenError::BufferTooSmall(4)));
    }
    assert_eq!(buf, [5, 5, 5]);
}

#[test]
fn position_after_a_partial_failure_keeps_earlier_bytes() {
    let mut buf = [0u8; 3];
    {
        let r = position(pair(be_u16(0x0102), be_u16(0x0304))).capture(Cursor::new(&mut buf));
        assert_eq!(r.err(), Some(GenError::BufferTooSmall(2)));
    }
    assert_eq!(buf, [1, 2, 0]);
}

#[test]
fn position_can_be_run_again() {
    let w = position(be_u16(0x0102));
    let mut buf = [0u8; 4];
    {
        let (first, rest) = w.capture(Cursor::new(&mut buf)).unwrap();
        let (second, rest) = w.capture(rest).unwrap();
        assert_eq!(first, second);
        assert_eq!(rest.len(), 0);
    }
    assert_eq!(buf, [1, 2, 1, 2]);
}
