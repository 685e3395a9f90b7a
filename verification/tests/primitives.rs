use bytegen::{skip, slice, string};
use bytegen::{Cursor, GenError, SerializeFn};

#[test]
fn slice_copies_the_payload_verbatim() {
    let data = [0xDEu8, 0xAD, 0xBE, 0xEF];
    let mut buf = [0u8; 6];
    {
        let out = Cursor::new(&mut buf);
        let rest = slice(&data[..]).serialize(out).unwrap();
        assert_eq!(rest.len(), 2);
        assert_eq!(rest.offset(), 4);
    }
    assert_eq!(buf, [0xDE, 0xAD, 0xBE, 0xEF, 0, 0]);
}

#[test]
fn slice_fills_a_buffer_of_exactly_its_length() {
    let data = [1u8, 2, 3];
    let mut buf = [0u8; 3];
    {
        let rest = slice(&data[..]).serialize(Cursor::new(&mut buf)).unwrap();
        assert_eq!(rest.len(), 0);
    }
    assert_eq!(buf, [1, 2, 3]);
}

#[test]
fn slice_refuses_a_short_buffer_and_leaves_it_alone() {
    let data = [1u8, 2, 3, 4, 5];
    let mut buf = [0x55u8; 4];
    {
        let r = slice(&data[..]).serialize(Cursor::new(&mut buf));
        assert_eq!(r.err(), Some(GenError::BufferTooSmall(5)));
    }
    assert_eq!(buf, [0x55; 4]);
}

#[test]
fn empty_slice_succeeds_on_an_empty_buffer() {
    let data: [u8; 0] = [];
    let mut buf: [u8; 0] = [];
    let rest = slice(&data[..]).serialize(Cursor::new(&mut buf)).unwrap();
    assert_eq!(rest.len(), 0);
    assert_eq!(rest.offset(), 0);
}

#[test]
fn string_copies_utf8_bytes_without_prefix_or_terminator() {
    let mut buf = [0xFFu8; 7];
    {
        let rest = string("h\u{e9}llo").serialize(Cursor::new(&mut buf)).unwrap();
        assert_eq!(rest.len(), 1);
    }
    assert_eq!(buf, [b'h', 0xC3, 0xA9, b'l', b'l', b'o', 0xFF]);
}

#[test]
fn string_refuses_by_byte_length_not_by_char_count() {
    let text = "\u{20ac}\u{20ac}";
    assert_eq!(text.chars().count(), 2);
    let mut buf = [0u8; 5];
    {
        let r = string(text).serialize(Cursor::new(&mut buf));
        assert_eq!(r.err(), Some(GenError::BufferTooSmall(6)));
    }
    assert_eq!(buf, [0; 5]);
}

#[test]
fn empty_string_writes_nothing() {
    let mut buf = [3u8; 2];
    {
        let rest = string("").serialize(Cursor::new(&mut buf)).unwrap();
        assert_eq!(rest.len(), 2);
    }
    assert_eq!(buf, [3, 3]);
}

#[test]
fn skip_moves_on_and_leaves_the_bytes_as_they_are() {
    let mut buf = [0xA1u8, 0xA2, 0xA3, 0xA4];
    {
        let out = Cursor::new(&mut buf);
        let rest = skip(3).serialize(out).unwrap();
        assert_eq!(rest.len(), 1);
        assert_eq!(rest.offset(), 3);
    }
    assert_eq!(buf, [0xA1, 0xA2, 0xA3, 0xA4]);
}

#[test]
fn skip_of_zero_succeeds_anywhere() {
    let mut buf: [u8; 0] = [];
    let rest = skip(0).serialize(Cursor::new(&mut buf)).unwrap();
    assert_eq!(rest.len(), 0);
}

#[test]
fn skip_refuses_more_than_is_left() {
    let mut buf = [1u8, 2];
    {
        let r = skip(3).serialize(Cursor::new(&mut buf));
        assert_eq!(r.err(), Some(GenError::BufferTooSmall(3)));
    }
    assert_eq!(buf, [1, 2]);
}

#[test]
fn skip_refuses_the_largest_count() {
    let mut buf = [1u8, 2];
    let r = skip(usize::MAX).serialize(Cursor::new(&mut buf));
    assert_eq!(r.err(), Some(GenError::BufferTooSmall(usize::MAX)));
}

#[test]
fn cursor_reports_tail_and_offset() {
    let mut buf = [0u8; 5];
    let out = Cursor::new(&mut buf);
    assert_eq!(out.len(), 5);
    assert_eq!(out.offset(), 0);
    let out = out.set(1, 9);
    assert_eq!(out.len(), 5);
    let out = out.advance(2);
    assert_eq!(out.len(), 3);
    assert_eq!(out.offset(), 2);
    let (seen, rest) = out.freeze(1);
    assert_eq!(seen, &[9u8][..]);
    assert_eq!(rest.len(), 3);
    assert_eq!(rest.offset(), 0);
}
