use vstd::prelude::*;
use crate::cursor::Cursor;
use crate::error::GenError;
use crate::writer::{content_blind, overlay, Emission, SerializeFn};

verus! {

/// The emission of a run that wrote nothing and did not fail.
pub open spec fn nothing() -> Emission {
    Emission { bytes: Seq::empty(), failure: None }
}

/// The emission of two steps in a row, where `second` is what the second step
/// does to the tail that the first one left. A failed first step is the whole
/// emission; otherwise the bytes add up and the second step decides.
pub open spec fn follow(first: Emission, second: Emission) -> Emission {
    if first.failure is Some {
        first
    } else {
        Emission { bytes: first.bytes + second.bytes, failure: second.failure }
    }
}

/// The emission of `before`, then of `writer` on what `before` left of `room`.
pub open spec fn step<W: SerializeFn>(before: Emission, writer: W, room: Seq<u8>) -> Emission {
    follow(before, writer.emit(room.skip(before.bytes.len() as int)))
}

/// Runs one writer, then another on the tail that the first one left.
pub struct Pair<F, G> {
    pub first: F,
    pub second: G,
}

/// A writer that runs `first`, then `second`; the first failure ends the run.
pub fn pair<F: SerializeFn, G: SerializeFn>(first: F, second: G) -> (w: Pair<F, G>)
    ensures
        w == (Pair { first, second }),
{
    Pair { first, second }
}

impl<F: SerializeFn, G: SerializeFn> SerializeFn for Pair<F, G> {
    open spec fn emit(&self, room: Seq<u8>) -> Emission {
        step(self.first.emit(room), self.second, room)
    }

    proof fn lemma_emit_fits(&self, room: Seq<u8>) {
        self.first.lemma_emit_fits(room);
        self.second.lemma_emit_fits(room.skip(self.first.emit(room).bytes.len() as int));
    }

    fn serialize<'a>(&self, out: Cursor<'a>) -> (r: Result<Cursor<'a>, GenError>) {
        proof {
            let room = out.remaining();
            self.second.lemma_emit_fits(room.skip(self.first.emit(room).bytes.len() as int));
        }
        match self.first.serialize(out) {
            Err(e) => Err(e),
            Ok(mid) => self.second.serialize(mid),
        }
    }
}

/// Where the first writer of a pair fails, the pair emits what the first
/// writer alone emits, failure and all: the second has no part in it.
pub proof fn lemma_pair_stops_at_first_failure<F: SerializeFn, G: SerializeFn>(
    first: F,
    second: G,
    room: Seq<u8>,
)
    requires
        first.emit(room).failure is Some,
    ensures
        (Pair { first, second }).emit(room) == first.emit(room),
{
}

/// Where the first writer of a pair succeeds, the pair emits its bytes, then
/// what the second writer emits on the tail behind them.
pub proof fn lemma_pair_runs_second_after_first<F: SerializeFn, G: SerializeFn>(
    first: F,
    second: G,
    room: Seq<u8>,
)
    requires
        first.emit(room).failure is None,
    ensures
        (Pair { first, second }).emit(room).bytes == first.emit(room).bytes + second.emit(
            room.skip(first.emit(room).bytes.len() as int),
        ).bytes,
        (Pair { first, second }).emit(room).failure == second.emit(
            room.skip(first.emit(room).bytes.len() as int),
        ).failure,
{
}

/// A pair of writers that are blind to the tail's content is blind to it too.
pub proof fn lemma_pair_is_content_blind<F: SerializeFn, G: SerializeFn>(first: F, second: G)
    requires
        content_blind(first),
        content_blind(second),
    ensures
        content_blind(Pair { first, second }),
{
    let w = Pair { first, second };
    assert forall|a: Seq<u8>, b: Seq<u8>| a.len() == b.len() implies #[trigger] w.emit(a)
        == #[trigger] w.emit(b) by {
        first.lemma_emit_fits(a);
    }
}

/// Runs a writer only where a condition, fixed when the writer was built, holds.
pub struct Cond<F> {
    pub condition: bool,
    pub f: F,
}

/// A writer that behaves as `f` where `condition` holds, and otherwise
/// succeeds without running `f` or moving the cursor.
pub fn cond<F: SerializeFn>(condition: bool, f: F) -> (w: Cond<F>)
    ensures
        w == (Cond { condition, f }),
{
    Cond { condition, f }
}

impl<F: SerializeFn> SerializeFn for Cond<F> {
    open spec fn emit(&self, room: Seq<u8>) -> Emission {
        if self.condition {
            self.f.emit(room)
        } else {
            nothing()
        }
    }

    proof fn lemma_emit_fits(&self, room: Seq<u8>) {
        self.f.lemma_emit_fits(room);
    }

    fn serialize<'a>(&self, out: Cursor<'a>) -> (r: Result<Cursor<'a>, GenError>) {
        if self.condition {
            self.f.serialize(out)
        } else {
            Ok(out)
        }
    }
}

/// A writer built on a false condition succeeds and writes nothing, whatever
/// its inner writer would have done: the tail stays as it was.
pub proof fn lemma_cond_false_writes_nothing<F: SerializeFn>(f: F, room: Seq<u8>)
    ensures
        (Cond { condition: false, f }).emit(room) == nothing(),
        overlay(room, (Cond { condition: false, f }).emit(room)) == room,
{
}

/// A writer built on a true condition is its inner writer.
pub proof fn lemma_cond_true_is_inner<F: SerializeFn>(f: F, room: Seq<u8>)
    ensures
        (Cond { condition: true, f }).emit(room) == f.emit(room),
{
}

/// A conditional writer is blind to the tail's content where its inner writer is.
pub proof fn lemma_cond_is_content_blind<F: SerializeFn>(condition: bool, f: F)
    requires
        content_blind(f),
    ensures
        content_blind(Cond { condition, f }),
{
}

/// The emission of the writers of `values`, run in order.
pub open spec fn emit_all<G: SerializeFn>(values: Seq<G>, room: Seq<u8>) -> Emission
    decreases values.len(),
{
    if values.len() == 0 {
        nothing()
    } else {
        step(emit_all(values.drop_last(), room), values.last(), room)
    }
}

/// Runs every writer of a list, in order.
pub struct All<G> {
    pub values: Vec<G>,
}

/// A writer that runs the writers of `values` in order, each on the tail that
/// the one before it left; the first failure ends the run. An empty list
/// succeeds and leaves the cursor where it was.
pub fn _all<G: SerializeFn>(values: Vec<G>) -> (w: All<G>)
    ensures
        w == (All { values }),
{
    All { values }
}

impl<G: SerializeFn> SerializeFn for All<G> {
    open spec fn emit(&self, room: Seq<u8>) -> Emission {
        emit_all(self.values@, room)
    }

    proof fn lemma_emit_fits(&self, room: Seq<u8>) {
        lemma_emit_all_fits(self.values@, room);
    }

    fn serialize<'a>(&self, out: Cursor<'a>) -> (r: Result<Cursor<'a>, GenError>) {
        let ghost room = out.remaining();
        let ghost behind = out.written();
        let ghost settled = final(out.store())@;
        let mut cur = out;
        let mut i: usize = 0;
        while i < self.values.len()
            invariant
                i <= self.values.len(),
                room == out.remaining(),
                behind == out.written(),
                settled == final(out.store())@,
                emit_all(self.values@.take(i as int), room).failure is None,
                cur.written() == behind + emit_all(self.values@.take(i as int), room).bytes,
                cur.remaining() == room.skip(
                    emit_all(self.values@.take(i as int), room).bytes.len() as int,
                ),
                final(cur.store())@ == settled,
            decreases self.values.len() - i,
        {
            proof {
                let before = emit_all(self.values@.take(i as int), room);
                assert(self.values@.take(i + 1).drop_last() =~= self.values@.take(i as int));
                lemma_emit_all_fits(self.values@.take(i as int), room);
                self.values@[i as int].lemma_emit_fits(room.skip(before.bytes.len() as int));
            }
            match self.values[i].serialize(cur) {
                Ok(next) => {
                    cur = next;
                },
                Err(e) => {
                    proof {
                        lemma_emit_all_stops(self.values@, i + 1, room);
                    }
                    return Err(e);
                },
            }
            i += 1;
        }
        proof {
            assert(self.values@.take(i as int) =~= self.values@);
            lemma_emit_all_fits(self.values@, room);
        }
        Ok(cur)
    }
}

/// A failure is final: once a front part of `values` has failed, the whole
/// list emits what that part did.
pub proof fn lemma_emit_all_stops<G: SerializeFn>(values: Seq<G>, count: int, room: Seq<u8>)
    requires
        0 <= count <= values.len(),
        emit_all(values.take(count), room).failure is Some,
    ensures
        emit_all(values, room) == emit_all(values.take(count), room),
    decreases values.len(),
{
    if count < values.len() {
        assert(values.drop_last().take(count) =~= values.take(count));
        lemma_emit_all_stops(values.drop_last(), count, room);
    } else {
        assert(values.take(count) =~= values);
    }
}

/// No list of writers lays down more bytes than the tail holds.
pub proof fn lemma_emit_all_fits<G: SerializeFn>(values: Seq<G>, room: Seq<u8>)
    ensures
        emit_all(values, room).bytes.len() <= room.len(),
    decreases values.len(),
{
    if values.len() > 0 {
        let before = emit_all(values.drop_last(), room);
        lemma_emit_all_fits(values.drop_last(), room);
        values.last().lemma_emit_fits(room.skip(before.bytes.len() as int));
    }
}

/// An empty list succeeds and writes nothing.
pub proof fn lemma_emit_all_of_none<G: SerializeFn>(room: Seq<u8>)
    ensures
        emit_all(Seq::<G>::empty(), room) == nothing(),
{
}

/// A list of writers that are blind to the tail's content emits the same on
/// any two tails of one length.
pub proof fn lemma_emit_all_by_length<G: SerializeFn>(values: Seq<G>, a: Seq<u8>, b: Seq<u8>)
    requires
        forall|i: int| 0 <= i < values.len() ==> content_blind(#[trigger] values[i]),
        a.len() == b.len(),
    ensures
        emit_all(values, a) == emit_all(values, b),
    decreases values.len(),
{
    if values.len() > 0 {
        lemma_emit_all_by_length(values.drop_last(), a, b);
        lemma_emit_all_fits(values.drop_last(), a);
    }
}

/// A writer over a list is blind to the tail's content where every writer of
/// the list is.
pub proof fn lemma_all_is_content_blind<G: SerializeFn>(w: All<G>)
    requires
        forall|i: int| 0 <= i < w.values@.len() ==> content_blind(#[trigger] w.values@[i]),
    ensures
        content_blind(w),
{
    assert forall|a: Seq<u8>, b: Seq<u8>| a.len() == b.len() implies #[trigger] w.emit(a)
        == #[trigger] w.emit(b) by {
        lemma_emit_all_by_length(w.values@, a, b);
    }
}

/// The emission of the writers of `values`, run in order, with `sep` run
/// between each two of them: never before the first, never after the last.
pub open spec fn emit_separated<F: SerializeFn, G: SerializeFn>(
    sep: F,
    values: Seq<G>,
    room: Seq<u8>,
) -> Emission
    decreases values.len(),
{
    if values.len() == 0 {
        nothing()
    } else if values.len() == 1 {
        values.last().emit(room)
    } else {
        step(step(emit_separated(sep, values.drop_last(), room), sep, room), values.last(), room)
    }
}

/// Runs every writer of a list, in order, with a separator between each two.
pub struct SeparatedList<F, G> {
    pub sep: F,
    pub values: Vec<G>,
}

/// A writer that runs the first writer of `values`, then `sep` and the next
/// writer for each one that follows; the first failure, in an element or in a
/// separator, ends the run. An empty list succeeds and leaves the cursor where
/// it was.
pub fn separated_list<F: SerializeFn, G: SerializeFn>(sep: F, values: Vec<G>) -> (w:
    SeparatedList<F, G>)
    ensures
        w == (SeparatedList { sep, values }),
{
    SeparatedList { sep, values }
}

impl<F: SerializeFn, G: SerializeFn> SerializeFn for SeparatedList<F, G> {
    open spec fn emit(&self, room: Seq<u8>) -> Emission {
        emit_separated(self.sep, self.values@, room)
    }

    proof fn lemma_emit_fits(&self, room: Seq<u8>) {
        lemma_emit_separated_fits(self.sep, self.values@, room);
    }

    fn serialize<'a>(&self, out: Cursor<'a>) -> (r: Result<Cursor<'a>, GenError>) {
        let ghost room = out.remaining();
        let ghost behind = out.written();
        let ghost settled = final(out.store())@;
        if self.values.len() == 0 {
            return Ok(out);
        }
        let mut cur = match self.values[0].serialize(out) {
            Ok(next) => next,
            Err(e) => {
                proof {
                    lemma_emit_separated_stops(self.sep, self.values@, 1, room);
                }
                return Err(e);
            },
        };
        let mut i: usize = 1;
        while i < self.values.len()
            invariant
                1 <= i <= self.values.len(),
                room == out.remaining(),
                behind == out.written(),
                settled == final(out.store())@,
                emit_separated(self.sep, self.values@.take(i as int), room).failure is None,
                cur.written() == behind + emit_separated(
                    self.sep,
                    self.values@.take(i as int),
                    room,
                ).bytes,
                cur.remaining() == room.skip(
                    emit_separated(self.sep, self.values@.take(i as int), room).bytes.len() as int,
                ),
                final(cur.store())@ == settled,
            decreases self.values.len() - i,
        {
            let ghost before = emit_separated(self.sep, self.values@.take(i as int), room);
            let ghost between = step(before, self.sep, room);
            proof {
                let gap = self.sep.emit(room.skip(before.bytes.len() as int));
                assert(self.values@.take(i + 1).drop_last() =~= self.values@.take(i as int));
                lemma_emit_separated_fits(self.sep, self.values@.take(i as int), room);
                self.sep.lemma_emit_fits(room.skip(before.bytes.len() as int));
                assert(room.skip(before.bytes.len() as int).skip(gap.bytes.len() as int)
                    =~= room.skip((before.bytes + gap.bytes).len() as int));
            }
            match self.sep.serialize(cur) {
                Ok(next) => {
                    cur = next;
                },
                Err(e) => {
                    proof {
                        lemma_emit_separated_stops(self.sep, self.values@, i + 1, room);
                    }
                    return Err(e);
                },
            }
            proof {
                self.values@[i as int].lemma_emit_fits(room.skip(between.bytes.len() as int));
            }
            match self.values[i].serialize(cur) {
                Ok(next) => {
                    cur = next;
                },
                Err(e) => {
                    proof {
                        lemma_emit_separated_stops(self.sep, self.values@, i + 1, room);
                    }
                    return Err(e);
                },
            }
            i += 1;
        }
        proof {
            assert(self.values@.take(i as int) =~= self.values@);
            lemma_emit_separated_fits(self.sep, self.values@, room);
        }
        Ok(cur)
    }
}

/// A failure is final: once a front part of `values` has failed, in an
/// element or in a separator, the whole list emits what that part did.
pub proof fn lemma_emit_separated_stops<F: SerializeFn, G: SerializeFn>(
    sep: F,
    values: Seq<G>,
    count: int,
    room: Seq<u8>,
)
    requires
        0 <= count <= values.len(),
        emit_separated(sep, values.take(count), room).failure is Some,
    ensures
        emit_separated(sep, values, room) == emit_separated(sep, values.take(count), room),
    decreases values.len(),
{
    if count < values.len() {
        assert(values.drop_last().take(count) =~= values.take(count));
        lemma_emit_separated_stops(sep, values.drop_last(), count, room);
    } else {
        assert(values.take(count) =~= values);
    }
}

/// No separated list lays down more bytes than the tail holds.
pub proof fn lemma_emit_separated_fits<F: SerializeFn, G: SerializeFn>(
    sep: F,
    values: Seq<G>,
    room: Seq<u8>,
)
    ensures
        emit_separated(sep, values, room).bytes.len() <= room.len(),
    decreases values.len(),
{
    if values.len() == 1 {
        values.last().lemma_emit_fits(room);
    } else if values.len() > 1 {
        let before = emit_separated(sep, values.drop_last(), room);
        lemma_emit_separated_fits(sep, values.drop_last(), room);
        sep.lemma_emit_fits(room.skip(before.bytes.len() as int));
        let between = step(before, sep, room);
        values.last().lemma_emit_fits(room.skip(between.bytes.len() as int));
    }
}

/// An empty separated list succeeds and writes nothing: no element, no separator.
pub proof fn lemma_emit_separated_of_none<F: SerializeFn, G: SerializeFn>(sep: F, room: Seq<u8>)
    ensures
        emit_separated(sep, Seq::<G>::empty(), room) == nothing(),
{
}

/// A separated list of one element emits that element alone: the separator
/// has no part in it.
pub proof fn lemma_emit_separated_of_one<F: SerializeFn, G: SerializeFn>(
    sep: F,
    only: G,
    room: Seq<u8>,
)
    ensures
        emit_separated(sep, seq![only], room) == only.emit(room),
{
}

/// A separated list with one more element emits the shorter list, then the
/// separator, then the new element, each on the tail that was left to it.
pub proof fn lemma_emit_separated_of_more<F: SerializeFn, G: SerializeFn>(
    sep: F,
    values: Seq<G>,
    more: G,
    room: Seq<u8>,
)
    requires
        values.len() > 0,
    ensures
        emit_separated(sep, values.push(more), room) == step(
            step(emit_separated(sep, values, room), sep, room),
            more,
            room,
        ),
{
    assert(values.push(more).drop_last() =~= values);
}

/// A separated list whose separator and elements are blind to the tail's
/// content emits the same on any two tails of one length.
pub proof fn lemma_emit_separated_by_length<F: SerializeFn, G: SerializeFn>(
    sep: F,
    values: Seq<G>,
    a: Seq<u8>,
    b: Seq<u8>,
)
    requires
        content_blind(sep),
        forall|i: int| 0 <= i < values.len() ==> content_blind(#[trigger] values[i]),
        a.len() == b.len(),
    ensures
        emit_separated(sep, values, a) == emit_separated(sep, values, b),
    decreases values.len(),
{
    if values.len() > 1 {
        let before = emit_separated(sep, values.drop_last(), a);
        lemma_emit_separated_by_length(sep, values.drop_last(), a, b);
        lemma_emit_separated_fits(sep, values.drop_last(), a);
        sep.lemma_emit_fits(a.skip(before.bytes.len() as int));
    }
}

/// A separated list is blind to the tail's content where its separator and
/// every one of its elements are.
pub proof fn lemma_separated_list_is_content_blind<F: SerializeFn, G: SerializeFn>(
    w: SeparatedList<F, G>,
)
    requires
        content_blind(w.sep),
        forall|i: int| 0 <= i < w.values@.len() ==> content_blind(#[trigger] w.values@[i]),
    ensures
        content_blind(w),
{
    assert forall|a: Seq<u8>, b: Seq<u8>| a.len() == b.len() implies #[trigger] w.emit(a)
        == #[trigger] w.emit(b) by {
        lemma_emit_separated_by_length(w.sep, w.values@, a, b);
    }
}

} // verus!
