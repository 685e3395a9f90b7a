use vstd::prelude::*;
use crate::cursor::Cursor;
use crate::error::GenError;

verus! {

/// What one run of a writer does to the unwritten tail: the bytes that now
/// stand at its front, and the failure that stopped the run, if any. A
/// composite that fails midway still has the bytes of its earlier steps.
pub struct Emission {
    pub bytes: Seq<u8>,
    pub failure: Option<GenError>,
}

/// The tail as it stands once `emission` has been laid down at the front of `room`.
pub open spec fn overlay(room: Seq<u8>, emission: Emission) -> Seq<u8> {
    emission.bytes + room.skip(emission.bytes.len() as int)
}

/// The emission of a write that found the tail too short: nothing is laid
/// down, and the failure carries the room that this one write needed.
pub open spec fn refusal(needed: usize) -> Emission {
    Emission { bytes: Seq::empty(), failure: Some(GenError::BufferTooSmall(needed)) }
}

/// The emission of a single write of `payload`: all of it, or a refusal that
/// carries the payload's length.
pub open spec fn lay(payload: Seq<u8>, room: Seq<u8>) -> Emission {
    if room.len() < payload.len() {
        refusal(payload.len() as usize)
    } else {
        Emission { bytes: payload, failure: None }
    }
}

/// A write into a tail shorter than its payload is refused with the payload's
/// length, and the tail stays as it was.
pub proof fn lemma_short_room_is_refused(payload: Seq<u8>, room: Seq<u8>)
    requires
        room.len() < payload.len(),
    ensures
        lay(payload, room) == refusal(payload.len() as usize),
        overlay(room, lay(payload, room)) == room,
{
}

/// A write into a tail that holds its payload lays all of it down, and the
/// tail loses exactly the payload's length.
pub proof fn lemma_wide_room_is_filled(payload: Seq<u8>, room: Seq<u8>)
    requires
        payload.len() <= room.len(),
    ensures
        lay(payload, room).failure is None,
        lay(payload, room).bytes == payload,
        overlay(room, lay(payload, room)).len() == room.len(),
        overlay(room, lay(payload, room)).take(payload.len() as int) == payload,
        overlay(room, lay(payload, room)).skip(payload.len() as int) == room.skip(
            payload.len() as int,
        ),
{
}

/// Whether what `writer` emits depends on the length of the tail alone, not
/// on the bytes that the tail holds before the run.
pub open spec fn content_blind<W: SerializeFn>(writer: W) -> bool {
    forall|a: Seq<u8>, b: Seq<u8>|
        a.len() == b.len() ==> #[trigger] writer.emit(a) == #[trigger] writer.emit(b)
}

/// A writer that lays down one payload, whatever the tail holds, is blind to
/// the tail's content.
pub proof fn lemma_fixed_payload_is_content_blind<W: SerializeFn>(writer: W, payload: Seq<u8>)
    requires
        forall|room: Seq<u8>| #[trigger] writer.emit(room) == lay(payload, room),
    ensures
        content_blind(writer),
{
}

/// Two writers built alike, run on fresh tails of one length, emit the same:
/// the same bytes, or the same failure. This holds of every writer that is
/// blind to the tail's content.
pub proof fn lemma_built_alike_emit_alike<W: SerializeFn>(
    one: W,
    other: W,
    room_one: Seq<u8>,
    room_other: Seq<u8>,
)
    requires
        one == other,
        content_blind(one),
        room_one.len() == room_other.len(),
    ensures
        one.emit(room_one) == other.emit(room_other),
{
}

/// A writer: a value that can be run on a cursor any number of times.
pub trait SerializeFn {
    /// The model of one run on a tail whose bytes are `room`.
    spec fn emit(&self, room: Seq<u8>) -> Emission;

    /// A run never lays down more bytes than the tail holds.
    proof fn lemma_emit_fits(&self, room: Seq<u8>)
        ensures
            self.emit(room).bytes.len() <= room.len(),
    ;

    /// Runs the writer at the front of the unwritten tail.
    ///
    /// On success the cursor that comes back covers the same buffer, moved
    /// past exactly the bytes of the model. On failure the buffer keeps the
    /// bytes that the run laid down before it stopped, and nothing else
    /// changes.
    fn serialize<'a>(&self, out: Cursor<'a>) -> (r: Result<Cursor<'a>, GenError>)
        ensures
            match r {
                Ok(next) => {
                    &&& self.emit(out.remaining()).failure is None
                    &&& next.written() == out.written() + self.emit(out.remaining()).bytes
                    &&& next.remaining() == out.remaining().skip(
                        self.emit(out.remaining()).bytes.len() as int,
                    )
                    &&& next.remaining().len() + self.emit(out.remaining()).bytes.len()
                        == out.remaining().len()
                    &&& final(next.store())@ == final(out.store())@
                },
                Err(e) => {
                    &&& self.emit(out.remaining()).failure == Some(e)
                    &&& final(out.store())@ == out.written() + overlay(
                        out.remaining(),
                        self.emit(out.remaining()),
                    )
                },
            },
    ;
}

} // verus!
