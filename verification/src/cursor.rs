use vstd::prelude::*;

verus! {

/// A place in a caller-owned buffer: the bytes already written through this
/// cursor, and the unwritten tail in front of it.
///
/// A cursor borrows its buffer and never owns, grows or frees it. Writers take
/// a cursor by value and hand it back moved forward, so that no two cursors
/// over the same bytes are ever live at once.
pub struct Cursor<'a> {
    buf: &'a mut [u8],
    pos: usize,
}

impl<'a> Cursor<'a> {
    #[verifier::type_invariant]
    spec fn within(&self) -> bool {
        self.pos <= self.buf@.len()
    }

    /// Where the written bytes end and the tail begins. The clamp only makes
    /// the model total: a cursor that exists always has its mark in range.
    spec fn mark(&self) -> int {
        if self.pos <= self.buf@.len() {
            self.pos as int
        } else {
            self.buf@.len() as int
        }
    }

    /// The borrowed bytes that this cursor stands in. Its final value is what
    /// the caller finds in the buffer once every cursor over it is gone.
    pub closed spec fn store(self) -> &'a mut [u8] {
        self.buf
    }

    /// The bytes behind the cursor, as they stand now.
    pub closed spec fn written(&self) -> Seq<u8> {
        self.buf@.take(self.mark())
    }

    /// The unwritten tail in front of the cursor, as it stands now.
    pub closed spec fn remaining(&self) -> Seq<u8> {
        self.buf@.skip(self.mark())
    }

    /// Once a cursor is dropped, the buffer holds what the cursor last saw:
    /// the written bytes, then the tail.
    pub proof fn lemma_settled(self)
        requires
            has_resolved(self),
        ensures
            final(self.store())@ == self.written() + self.remaining(),
    {
    }

    /// A cursor at the front of `buf`, with all of it unwritten.
    pub fn new(buf: &'a mut [u8]) -> (c: Cursor<'a>)
        ensures
            c.written() == Seq::<u8>::empty(),
            c.remaining() == old(buf)@,
            final(c.store())@ == final(buf)@,
    {
        Cursor { buf, pos: 0 }
    }

    /// The length of the unwritten tail.
    pub fn len(&self) -> (n: usize)
        ensures
            n == self.remaining().len(),
    {
        proof {
            use_type_invariant(self);
        }
        self.buf.len() - self.pos
    }

    /// The number of bytes behind the cursor.
    pub fn offset(&self) -> (n: usize)
        ensures
            n == self.written().len(),
    {
        proof {
            use_type_invariant(self);
        }
        self.pos
    }

    /// Stores `value` in the tail, `index` bytes in front of the cursor, without
    /// moving the cursor.
    pub fn set(self, index: usize, value: u8) -> (next: Cursor<'a>)
        requires
            index < self.remaining().len(),
        ensures
            next.written() == self.written(),
            next.remaining() == self.remaining().update(index as int, value),
            final(next.store())@ == final(self.store())@,
    {
        proof {
            use_type_invariant(&self);
        }
        let Cursor { buf, pos } = self;
        assert(buf@.len() == buf.len());
        buf[pos + index] = value;
        Cursor { buf, pos }
    }

    /// Moves the cursor past the first `count` bytes of the tail, which become
    /// written bytes as they stand.
    pub fn advance(self, count: usize) -> (next: Cursor<'a>)
        requires
            count <= self.remaining().len(),
        ensures
            next.written() == self.written() + self.remaining().take(count as int),
            next.remaining() == self.remaining().skip(count as int),
            final(next.store())@ == final(self.store())@,
    {
        proof {
            use_type_invariant(&self);
        }
        let Cursor { buf, pos } = self;
        assert(buf@.len() == buf.len());
        Cursor { buf, pos: pos + count }
    }

    /// Gives up the written bytes for reading: hands back those from `start`
    /// on, in place, and a cursor that covers the unwritten tail alone.
    pub fn freeze(self, start: usize) -> (r: (&'a [u8], Cursor<'a>))
        requires
            start <= self.written().len(),
        ensures
            r.0@ == self.written().skip(start as int),
            r.1.written() == Seq::<u8>::empty(),
            r.1.remaining() == self.remaining(),
            final(self.store())@ == self.written() + final(r.1.store())@,
    {
        proof {
            use_type_invariant(&self);
        }
        let Cursor { buf, pos } = self;
        let (head, tail) = buf.split_at_mut(pos);
        let head: &'a [u8] = head;
        (vstd::slice::slice_subrange(head, start, pos), Cursor { buf: tail, pos: 0 })
    }
}

} // verus!
