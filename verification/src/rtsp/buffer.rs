//! A bounded growable byte buffer with a read and a write cursor, used for
//! both directions of the session stream.

use vstd::prelude::*;

verus! {

#[derive(Debug, Clone, Copy, PartialEq, Eq, Structural)]
pub enum BufferError {
    NotEnoughSpace,
}

pub struct Buffer {
    data: Vec<u8>,
    max_capacity: usize,
    read_pos: usize,
    write_pos: usize,
}

impl View for Buffer {
    type V = Seq<u8>;

    /// The unread bytes, in order.
    closed spec fn view(&self) -> Seq<u8> {
        self.data@.subrange(self.read_pos as int, self.write_pos as int)
    }
}

impl Buffer {
    /// The cursor and size invariant, with the liveness rule that an empty
    /// buffer has both cursors at zero.
    pub closed spec fn wf(&self) -> bool {
        self.read_pos <= self.write_pos <= self.data@.len() <= self.max_capacity
            && (self.read_pos == self.write_pos ==> self.read_pos == 0 && self.write_pos == 0)
    }

    pub closed spec fn spec_read_pos(&self) -> usize {
        self.read_pos
    }

    pub closed spec fn spec_write_pos(&self) -> usize {
        self.write_pos
    }

    pub closed spec fn spec_capacity(&self) -> usize {
        self.data@.len() as usize
    }

    pub closed spec fn spec_max_capacity(&self) -> usize {
        self.max_capacity
    }

    /// The whole storage, beyond the unread window.
    pub closed spec fn storage(&self) -> Seq<u8> {
        self.data@
    }

    /// The free bytes between the write cursor and the end of the storage.
    pub open spec fn tail_space(&self) -> int {
        self.spec_capacity() - self.spec_write_pos()
    }

    pub fn new(max_capacity: usize) -> (r: Self)
        ensures
            r.wf(),
            r@ == Seq::<u8>::empty(),
            r.spec_max_capacity() == max_capacity,
            r.spec_capacity() == 0,
            r.spec_read_pos() == 0,
            r.spec_write_pos() == 0,
    {
        let r = Buffer { data: Vec::new(), max_capacity, read_pos: 0, write_pos: 0 };
        proof {
            assert(r@ =~= Seq::<u8>::empty());
        }
        r
    }

    /// Borrows the unread bytes.
    pub fn get_read_slice(&self) -> (r: &[u8])
        requires
            self.wf(),
        ensures
            r@ == self@,
    {
        vstd::slice::slice_subrange(self.data.as_slice(), self.read_pos, self.write_pos)
    }

    /// Advances the read cursor over `n` consumed bytes; consuming the last
    /// unread byte resets both cursors to zero.
    pub fn notify_read(&mut self, n: usize)
        requires
            old(self).wf(),
            n <= old(self)@.len(),
        ensures
            final(self).wf(),
            final(self)@ == old(self)@.subrange(n as int, old(self)@.len() as int),
            final(self).spec_max_capacity() == old(self).spec_max_capacity(),
            final(self).spec_capacity() == old(self).spec_capacity(),
            n == old(self)@.len() ==> final(self).spec_read_pos() == 0 && final(self).spec_write_pos()
                == 0 && final(self)@ == Seq::<u8>::empty(),
            n < old(self)@.len() ==> final(self).spec_read_pos() == old(self).spec_read_pos() + n
                && final(self).spec_write_pos() == old(self).spec_write_pos(),
    {
        self.read_pos = self.read_pos + n;
        if self.read_pos == self.write_pos {
            self.read_pos = 0;
            self.write_pos = 0;
        }
        proof {
            assert(self@ =~= old(self)@.subrange(n as int, old(self)@.len() as int));
        }
    }

    /// Makes room for `n` bytes after the write cursor: uses the tail if it
    /// suffices, else compacts when moving the unread bytes to the front
    /// yields enough tail, else grows within the capacity ceiling, else
    /// fails, changing nothing.
    pub fn get_write_slice(&mut self, n: usize) -> (r: Result<usize, BufferError>)
        requires
            old(self).wf(),
        ensures
            final(self).wf(),
            final(self)@ == old(self)@,
            final(self).spec_max_capacity() == old(self).spec_max_capacity(),
            r matches Ok(w) ==> final(self).tail_space() >= n && w == final(self).spec_write_pos(),
            r is Err ==> *final(self) == *old(self) && r == Err::<usize, BufferError>(
                BufferError::NotEnoughSpace,
            ),
            r is Err <==> n > old(self).spec_read_pos() + old(self).tail_space() && n
                > old(self).spec_max_capacity() - old(self).spec_write_pos(),
    {
        if n > self.data.len() - self.write_pos {
            if n <= self.read_pos + (self.data.len() - self.write_pos) {
                // compaction: move the unread bytes to the front
                let unread = self.write_pos - self.read_pos;
                let mut i: usize = 0;
                while i < unread
                    invariant
                        old(self).wf(),
                        unread == old(self).spec_write_pos() - old(self).spec_read_pos(),
                        0 <= i <= unread,
                        self.read_pos == old(self).spec_read_pos(),
                        self.write_pos == old(self).spec_write_pos(),
                        self.max_capacity == old(self).spec_max_capacity(),
                        self.data@.len() == old(self).spec_capacity(),
                        forall|k: int| 0 <= k < i ==> self.data@[k] == old(self).data@[
                            old(self).spec_read_pos() + k
                        ],
                        forall|k: int| i <= k < old(self).spec_capacity() ==> self.data@[k] == old(
                            self,
                        ).data@[k],
                    decreases unread - i,
                {
                    let b = self.data[self.read_pos + i];
                    self.data[i] = b;
                    i = i + 1;
                }
                self.write_pos = unread;
                self.read_pos = 0;
                proof {
                    assert(self@ =~= old(self)@);
                }
                Ok(self.write_pos)
            } else if n <= self.max_capacity - self.write_pos {
                // growth within the ceiling
                self.data.resize(self.write_pos + n, 0);
                proof {
                    assert(self@ =~= old(self)@);
                }
                Ok(self.write_pos)
            } else {
                Err(BufferError::NotEnoughSpace)
            }
        } else {
            Ok(self.write_pos)
        }
    }

    /// Advances the write cursor over `n` bytes already placed after it.
    pub fn notify_write(&mut self, n: usize)
        requires
            old(self).wf(),
            n <= old(self).tail_space(),
        ensures
            final(self).wf(),
            final(self)@ == old(self)@ + old(self).storage().subrange(
                old(self).spec_write_pos() as int,
                old(self).spec_write_pos() + n,
            ),
            final(self).storage() == old(self).storage(),
            final(self).spec_max_capacity() == old(self).spec_max_capacity(),
            final(self).spec_capacity() == old(self).spec_capacity(),
            final(self).spec_write_pos() == old(self).spec_write_pos() + n,
            final(self).spec_read_pos() == old(self).spec_read_pos(),
    {
        self.write_pos = self.write_pos + n;
        proof {
            assert(self@ =~= old(self)@ + old(self).storage().subrange(
                old(self).spec_write_pos() as int,
                old(self).spec_write_pos() + n,
            ));
        }
    }

    /// Appends `src` to the unread bytes, making room as `get_write_slice`
    /// does; fails exactly when that fails, changing nothing.
    pub fn write_bytes(&mut self, src: &[u8]) -> (r: Result<(), BufferError>)
        requires
            old(self).wf(),
        ensures
            final(self).wf(),
            final(self).spec_max_capacity() == old(self).spec_max_capacity(),
            r matches Ok(u) ==> final(self)@ == old(self)@ + src@,
            r is Err ==> *final(self) == *old(self) && r == Err::<(), BufferError>(
                BufferError::NotEnoughSpace,
            ),
            r is Err <==> src@.len() > old(self).spec_read_pos() + old(self).tail_space()
                && src@.len() > old(self).spec_max_capacity() - old(self).spec_write_pos(),
    {
        match self.get_write_slice(src.len()) {
            Result::Err(e) => Err(e),
            Result::Ok(w) => {
                let ghost mid = *self;
                let mut i: usize = 0;
                while i < src.len()
                    invariant
                        mid.wf(),
                        mid.tail_space() >= src@.len(),
                        w == mid.spec_write_pos(),
                        0 <= i <= src@.len(),
                        self.read_pos == mid.spec_read_pos(),
                        self.write_pos == mid.spec_write_pos(),
                        self.max_capacity == mid.spec_max_capacity(),
                        self.data@.len() == mid.spec_capacity(),
                        forall|k: int| 0 <= k < mid.spec_write_pos() ==> self.data@[k] == mid.data@[k],
                        forall|k: int| 0 <= k < i ==> self.data@[mid.spec_write_pos() + k] == src@[k],
                    decreases src@.len() - i,
                {
                    let b = src[i];
                    self.data[w + i] = b;
                    i = i + 1;
                }
                proof {
                    assert(self@ =~= mid@);
                    assert(self.storage().subrange(
                        self.spec_write_pos() as int,
                        self.spec_write_pos() + src@.len(),
                    ) =~= src@);
                }
                self.notify_write(src.len());
                proof {
                    assert(self@ =~= old(self)@ + src@);
                }
                Ok(())
            },
        }
    }
}

} // verus!
