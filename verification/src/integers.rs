use vstd::prelude::*;
use crate::cursor::Cursor;
use crate::encoding::{
    be_bytes, be_value, le_bytes, le_value, lemma_be_round_trip, lemma_digits_u16,
    lemma_digits_u32, lemma_digits_u64, lemma_le_round_trip, lemma_span_of_widths,
};
use crate::error::GenError;
use crate::writer::{lay, Emission, SerializeFn};

verus! {

/// Writes an 8-bit value as one byte.
pub struct BeU8 {
    pub value: u8,
}

/// A writer of `i` as one byte.
pub fn be_u8(i: u8) -> (w: BeU8)
    ensures
        w == (BeU8 { value: i }),
{
    BeU8 { value: i }
}

impl SerializeFn for BeU8 {
    open spec fn emit(&self, room: Seq<u8>) -> Emission {
        lay(be_bytes(self.value as nat, 1), room)
    }

    proof fn lemma_emit_fits(&self, room: Seq<u8>) {
    }

    fn serialize<'a>(&self, out: Cursor<'a>) -> (r: Result<Cursor<'a>, GenError>) {
        let len: usize = 1;
        if out.len() < len {
            proof {
                out.lemma_settled();
            }
            Err(GenError::BufferTooSmall(len))
        } else {
            let i = self.value;
            let next = out.set(0, i);
            Ok(next.advance(len))
        }
    }
}

/// Writes a 16-bit value in two bytes, most significant byte first.
pub struct BeU16 {
    pub value: u16,
}

/// A writer of `i` in two bytes, most significant byte first.
pub fn be_u16(i: u16) -> (w: BeU16)
    ensures
        w == (BeU16 { value: i }),
{
    BeU16 { value: i }
}

impl SerializeFn for BeU16 {
    open spec fn emit(&self, room: Seq<u8>) -> Emission {
        lay(be_bytes(self.value as nat, 2), room)
    }

    proof fn lemma_emit_fits(&self, room: Seq<u8>) {
    }

    fn serialize<'a>(&self, out: Cursor<'a>) -> (r: Result<Cursor<'a>, GenError>) {
        let len: usize = 2;
        if out.len() < len {
            proof {
                out.lemma_settled();
            }
            Err(GenError::BufferTooSmall(len))
        } else {
            let i = self.value;
            proof {
                lemma_digits_u16(i);
            }
            let next = out.set(0, ((i >> 8) & 0xff) as u8);
            let next = next.set(1, (i & 0xff) as u8);
            Ok(next.advance(len))
        }
    }
}

/// Writes a 32-bit value in four bytes, most significant byte first.
pub struct BeU32 {
    pub value: u32,
}

/// A writer of `i` in four bytes, most significant byte first.
pub fn be_u32(i: u32) -> (w: BeU32)
    ensures
        w == (BeU32 { value: i }),
{
    BeU32 { value: i }
}

impl SerializeFn for BeU32 {
    open spec fn emit(&self, room: Seq<u8>) -> Emission {
        lay(be_bytes(self.value as nat, 4), room)
    }

    proof fn lemma_emit_fits(&self, room: Seq<u8>) {
    }

    fn serialize<'a>(&self, out: Cursor<'a>) -> (r: Result<Cursor<'a>, GenError>) {
        let len: usize = 4;
        if out.len() < len {
            proof {
                out.lemma_settled();
            }
            Err(GenError::BufferTooSmall(len))
        } else {
            let i = self.value;
            proof {
                lemma_digits_u32(i);
            }
            let next = out.set(0, ((i >> 24) & 0xff) as u8);
            let next = next.set(1, ((i >> 16) & 0xff) as u8);
            let next = next.set(2, ((i >> 8) & 0xff) as u8);
            let next = next.set(3, (i & 0xff) as u8);
            Ok(next.advance(len))
        }
    }
}

/// Writes a 64-bit value in eight bytes, most significant byte first.
pub struct BeU64 {
    pub value: u64,
}

/// A writer of `i` in eight bytes, most significant byte first.
pub fn be_u64(i: u64) -> (w: BeU64)
    ensures
        w == (BeU64 { value: i }),
{
    BeU64 { value: i }
}

impl SerializeFn for BeU64 {
    open spec fn emit(&self, room: Seq<u8>) -> Emission {
        lay(be_bytes(self.value as nat, 8), room)
    }

    proof fn lemma_emit_fits(&self, room: Seq<u8>) {
    }

    fn serialize<'a>(&self, out: Cursor<'a>) -> (r: Result<Cursor<'a>, GenError>) {
        let len: usize = 8;
        if out.len() < len {
            proof {
                out.lemma_settled();
            }
            Err(GenError::BufferTooSmall(len))
        } else {
            let i = self.value;
            proof {
                lemma_digits_u64(i);
            }
            let next = out.set(0, ((i >> 56) & 0xff) as u8);
            let next = next.set(1, ((i >> 48) & 0xff) as u8);
            let next = next.set(2, ((i >> 40) & 0xff) as u8);
            let next = next.set(3, ((i >> 32) & 0xff) as u8);
            let next = next.set(4, ((i >> 24) & 0xff) as u8);
            let next = next.set(5, ((i >> 16) & 0xff) as u8);
            let next = next.set(6, ((i >> 8) & 0xff) as u8);
            let next = next.set(7, (i & 0xff) as u8);
            Ok(next.advance(len))
        }
    }
}

/// Writes an 8-bit value as one byte.
pub struct LeU8 {
    pub value: u8,
}

/// A writer of `i` as one byte.
pub fn le_u8(i: u8) -> (w: LeU8)
    ensures
        w == (LeU8 { value: i }),
{
    LeU8 { value: i }
}

impl SerializeFn for LeU8 {
    open spec fn emit(&self, room: Seq<u8>) -> Emission {
        lay(le_bytes(self.value as nat, 1), room)
    }

    proof fn lemma_emit_fits(&self, room: Seq<u8>) {
    }

    fn serialize<'a>(&self, out: Cursor<'a>) -> (r: Result<Cursor<'a>, GenError>) {
        let len: usize = 1;
        if out.len() < len {
            proof {
                out.lemma_settled();
            }
            Err(GenError::BufferTooSmall(len))
        } else {
            let i = self.value;
            let next = out.set(0, i);
            Ok(next.advance(len))
        }
    }
}

/// Writes a 16-bit value in two bytes, least significant byte first.
pub struct LeU16 {
    pub value: u16,
}

/// A writer of `i` in two bytes, least significant byte first.
pub fn le_u16(i: u16) -> (w: LeU16)
    ensures
        w == (LeU16 { value: i }),
{
    LeU16 { value: i }
}

impl SerializeFn for LeU16 {
    open spec fn emit(&self, room: Seq<u8>) -> Emission {
        lay(le_bytes(self.value as nat, 2), room)
    }

    proof fn lemma_emit_fits(&self, room: Seq<u8>) {
    }

    fn serialize<'a>(&self, out: Cursor<'a>) -> (r: Result<Cursor<'a>, GenError>) {
        let len: usize = 2;
        if out.len() < len {
            proof {
                out.lemma_settled();
            }
            Err(GenError::BufferTooSmall(len))
        } else {
            let i = self.value;
            proof {
                lemma_digits_u16(i);
            }
            let next = out.set(0, (i & 0xff) as u8);
            let next = next.set(1, ((i >> 8) & 0xff) as u8);
            Ok(next.advance(len))
        }
    }
}

/// Writes a 32-bit value in four bytes, least significant byte first.
pub struct LeU32 {
    pub value: u32,
}

/// A writer of `i` in four bytes, least significant byte first.
pub fn le_u32(i: u32) -> (w: LeU32)
    ensures
        w == (LeU32 { value: i }),
{
    LeU32 { value: i }
}

impl SerializeFn for LeU32 {
    open spec fn emit(&self, room: Seq<u8>) -> Emission {
        lay(le_bytes(self.value as nat, 4), room)
    }

    proof fn lemma_emit_fits(&self, room: Seq<u8>) {
    }

    fn serialize<'a>(&self, out: Cursor<'a>) -> (r: Result<Cursor<'a>, GenError>) {
        let len: usize = 4;
        if out.len() < len {
            proof {
                out.lemma_settled();
            }
            Err(GenError::BufferTooSmall(len))
        } else {
            let i = self.value;
            proof {
                lemma_digits_u32(i);
            }
            let next = out.set(0, (i & 0xff) as u8);
            let next = next.set(1, ((i >> 8) & 0xff) as u8);
            let next = next.set(2, ((i >> 16) & 0xff) as u8);
            let next = next.set(3, ((i >> 24) & 0xff) as u8);
            Ok(next.advance(len))
        }
    }
}

/// Writes a 64-bit value in eight bytes, least significant byte first.
pub struct LeU64 {
    pub value: u64,
}

/// A writer of `i` in eight bytes, least significant byte first.
pub fn le_u64(i: u64) -> (w: LeU64)
    ensures
        w == (LeU64 { value: i }),
{
    LeU64 { value: i }
}

impl SerializeFn for LeU64 {
    open spec fn emit(&self, room: Seq<u8>) -> Emission {
        lay(le_bytes(self.value as nat, 8), room)
    }

    proof fn lemma_emit_fits(&self, room: Seq<u8>) {
    }

    fn serialize<'a>(&self, out: Cursor<'a>) -> (r: Result<Cursor<'a>, GenError>) {
        let len: usize = 8;
        if out.len() < len {
            proof {
                out.lemma_settled();
            }
            Err(GenError::BufferTooSmall(len))
        } else {
            let i = self.value;
            proof {
                lemma_digits_u64(i);
            }
            let next = out.set(0, (i & 0xff) as u8);
            let next = next.set(1, ((i >> 8) & 0xff) as u8);
            let next = next.set(2, ((i >> 16) & 0xff) as u8);
            let next = next.set(3, ((i >> 24) & 0xff) as u8);
            let next = next.set(4, ((i >> 32) & 0xff) as u8);
            let next = next.set(5, ((i >> 40) & 0xff) as u8);
            let next = next.set(6, ((i >> 48) & 0xff) as u8);
            let next = next.set(7, ((i >> 56) & 0xff) as u8);
            Ok(next.advance(len))
        }
    }
}

/// A big-endian writer lays down the most significant eight bits of its value
/// first, and a little-endian writer the least significant eight.
pub proof fn lemma_leading_byte(v16: u16, v32: u32, v64: u64, room: Seq<u8>)
    requires
        room.len() >= 8,
    ensures
        (BeU16 { value: v16 }).emit(room).bytes.first() == v16 >> 8,
        (BeU32 { value: v32 }).emit(room).bytes.first() == v32 >> 24,
        (BeU64 { value: v64 }).emit(room).bytes.first() == v64 >> 56,
        (LeU16 { value: v16 }).emit(room).bytes.first() == v16 & 0xff,
        (LeU32 { value: v32 }).emit(room).bytes.first() == v32 & 0xff,
        (LeU64 { value: v64 }).emit(room).bytes.first() == v64 & 0xff,
{
    lemma_digits_u16(v16);
    lemma_digits_u32(v32);
    lemma_digits_u64(v64);
    assert((v16 >> 8) & 0xff == v16 >> 8 && v16 >> 8 < 256) by (bit_vector);
    assert((v32 >> 24) & 0xff == v32 >> 24 && v32 >> 24 < 256) by (bit_vector);
    assert((v64 >> 56) & 0xff == v64 >> 56 && v64 >> 56 < 256) by (bit_vector);
}

/// A little-endian writer lays down the bytes of the big-endian writer of the
/// same value, in reverse order.
pub proof fn lemma_little_endian_reverses_big_endian(
    v8: u8,
    v16: u16,
    v32: u32,
    v64: u64,
    room: Seq<u8>,
)
    requires
        room.len() >= 8,
    ensures
        (LeU8 { value: v8 }).emit(room).bytes == (BeU8 { value: v8 }).emit(room).bytes.reverse(),
        (LeU16 { value: v16 }).emit(room).bytes == (BeU16 { value: v16 }).emit(
            room,
        ).bytes.reverse(),
        (LeU32 { value: v32 }).emit(room).bytes == (BeU32 { value: v32 }).emit(
            room,
        ).bytes.reverse(),
        (LeU64 { value: v64 }).emit(room).bytes == (BeU64 { value: v64 }).emit(
            room,
        ).bytes.reverse(),
{
}

/// A decoder of the matching byte order reads back, from what an integer
/// writer lays down, exactly the value the writer was built with.
pub proof fn lemma_integers_round_trip(v8: u8, v16: u16, v32: u32, v64: u64, room: Seq<u8>)
    requires
        room.len() >= 8,
    ensures
        be_value((BeU8 { value: v8 }).emit(room).bytes) == v8,
        be_value((BeU16 { value: v16 }).emit(room).bytes) == v16,
        be_value((BeU32 { value: v32 }).emit(room).bytes) == v32,
        be_value((BeU64 { value: v64 }).emit(room).bytes) == v64,
        le_value((LeU8 { value: v8 }).emit(room).bytes) == v8,
        le_value((LeU16 { value: v16 }).emit(room).bytes) == v16,
        le_value((LeU32 { value: v32 }).emit(room).bytes) == v32,
        le_value((LeU64 { value: v64 }).emit(room).bytes) == v64,
{
    lemma_span_of_widths();
    lemma_be_round_trip(v8 as nat, 1);
    lemma_be_round_trip(v16 as nat, 2);
    lemma_be_round_trip(v32 as nat, 4);
    lemma_be_round_trip(v64 as nat, 8);
    lemma_le_round_trip(v8 as nat, 1);
    lemma_le_round_trip(v16 as nat, 2);
    lemma_le_round_trip(v32 as nat, 4);
    lemma_le_round_trip(v64 as nat, 8);
}

} // verus!
