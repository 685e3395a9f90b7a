use vstd::prelude::*;
use vstd::utf8::encode_utf8;
use crate::cursor::Cursor;
use crate::error::GenError;
use crate::writer::{lay, overlay, refusal, Emission, SerializeFn};

verus! {

/// Copies a run of bytes, unchanged.
pub struct Slice<'d> {
    pub data: &'d [u8],
}

/// A writer that copies `data` as it stands.
pub fn slice<'d>(data: &'d [u8]) -> (w: Slice<'d>)
    ensures
        w == (Slice { data }),
{
    Slice { data }
}

impl<'d> SerializeFn for Slice<'d> {
    open spec fn emit(&self, room: Seq<u8>) -> Emission {
        lay(self.data@, room)
    }

    proof fn lemma_emit_fits(&self, room: Seq<u8>) {
    }

    fn serialize<'a>(&self, out: Cursor<'a>) -> (r: Result<Cursor<'a>, GenError>) {
        let len = self.data.len();
        if out.len() < len {
            proof {
                out.lemma_settled();
            }
            Err(GenError::BufferTooSmall(len))
        } else {
            let ghost room = out.remaining();
            let ghost behind = out.written();
            let ghost settled = final(out.store())@;
            let mut cur = out;
            let mut k: usize = 0;
            while k < len
                invariant
                    k <= len,
                    len == self.data@.len(),
                    len <= room.len(),
                    cur.written() == behind,
                    cur.remaining() == self.data@.take(k as int) + room.skip(k as int),
                    final(cur.store())@ == settled,
                decreases len - k,
            {
                cur = cur.set(k, self.data[k]);
                k += 1;
            }
            Ok(cur.advance(len))
        }
    }
}

/// Copies the UTF-8 bytes of a text: no length before them, no terminator after.
pub struct Text<'d> {
    pub data: &'d str,
}

/// A writer that copies the UTF-8 bytes of `data`.
pub fn string<'d>(data: &'d str) -> (w: Text<'d>)
    ensures
        w == (Text { data }),
{
    Text { data }
}

impl<'d> SerializeFn for Text<'d> {
    open spec fn emit(&self, room: Seq<u8>) -> Emission {
        lay(encode_utf8(self.data@), room)
    }

    proof fn lemma_emit_fits(&self, room: Seq<u8>) {
    }

    fn serialize<'a>(&self, out: Cursor<'a>) -> (r: Result<Cursor<'a>, GenError>) {
        slice(self.data.as_bytes()).serialize(out)
    }
}

/// Passes over a number of bytes and leaves them as they are.
pub struct Skip {
    pub len: usize,
}

/// A writer that moves the cursor `len` bytes on without writing to them.
pub fn skip(len: usize) -> (w: Skip)
    ensures
        w == (Skip { len }),
{
    Skip { len }
}

impl SerializeFn for Skip {
    open spec fn emit(&self, room: Seq<u8>) -> Emission {
        if room.len() < self.len {
            refusal(self.len)
        } else {
            Emission { bytes: room.take(self.len as int), failure: None }
        }
    }

    proof fn lemma_emit_fits(&self, room: Seq<u8>) {
    }

    fn serialize<'a>(&self, out: Cursor<'a>) -> (r: Result<Cursor<'a>, GenError>) {
        if out.len() < self.len {
            proof {
                out.lemma_settled();
            }
            Err(GenError::BufferTooSmall(self.len))
        } else {
            Ok(out.advance(self.len))
        }
    }
}

/// A skip over more bytes than the tail holds is refused with the number
/// asked for, and the tail stays as it was.
pub proof fn lemma_short_room_refuses_skip(len: usize, room: Seq<u8>)
    requires
        room.len() < len,
    ensures
        (Skip { len }).emit(room) == refusal(len),
        overlay(room, (Skip { len }).emit(room)) == room,
{
}

/// A skip that the tail can hold leaves every byte of the tail as it was.
pub proof fn lemma_skip_keeps_bytes(len: usize, room: Seq<u8>)
    requires
        len <= room.len(),
    ensures
        (Skip { len }).emit(room).failure is None,
        (Skip { len }).emit(room).bytes.len() == len,
        overlay(room, (Skip { len }).emit(room)) == room,
{
}

} // verus!
