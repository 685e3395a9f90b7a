use vstd::prelude::*;
use crate::cursor::Cursor;
use crate::error::GenError;
use crate::writer::{overlay, SerializeFn};

verus! {

/// Runs a writer and hands back, beside the cursor, the bytes that the run wrote.
pub struct Position<F> {
    pub f: F,
}

/// A wrapper of `f` whose runs also yield the span of bytes that `f` wrote.
pub fn position<F: SerializeFn>(f: F) -> (w: Position<F>)
    ensures
        w == (Position { f }),
{
    Position { f }
}

impl<F: SerializeFn> Position<F> {
    /// Runs the wrapped writer at the front of the unwritten tail.
    ///
    /// On success the span holds exactly the bytes that the writer laid down,
    /// read in place, and the cursor that comes back covers the tail behind
    /// them. A failure of the writer is passed on as it is, with no span.
    pub fn capture<'a>(&self, out: Cursor<'a>) -> (r: Result<(&'a [u8], Cursor<'a>), GenError>)
        ensures
            match r {
                Ok((span, next)) => {
                    &&& self.f.emit(out.remaining()).failure is None
                    &&& span@ == self.f.emit(out.remaining()).bytes
                    &&& next.written() == Seq::<u8>::empty()
                    &&& next.remaining() == out.remaining().skip(
                        self.f.emit(out.remaining()).bytes.len() as int,
                    )
                    &&& next.remaining().len() + span@.len() == out.remaining().len()
                    &&& final(out.store())@ == out.written() + self.f.emit(out.remaining()).bytes
                        + final(next.store())@
                },
                Err(e) => {
                    &&& self.f.emit(out.remaining()).failure == Some(e)
                    &&& final(out.store())@ == out.written() + overlay(
                        out.remaining(),
                        self.f.emit(out.remaining()),
                    )
                },
            },
    {
        let start = out.offset();
        match self.f.serialize(out) {
            Ok(end) => Ok(end.freeze(start)),
            Err(e) => Err(e),
        }
    }
}

} // verus!
