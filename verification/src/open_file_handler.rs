//! The table of open files: a monotonically assigned file handle maps to
//! an entity id and that file's write buffer.

use vstd::prelude::*;

use crate::write_buffer::{coalesce, WriteBuffer, WriteOperation, WriteOpView, FLUSH_THRESHOLD};

verus! {

/// One open file: the entity it names and its buffered writes.
pub struct OpenFile {
    pub id: String,
    pub write_buffer: WriteBuffer,
}

impl OpenFile {
    pub fn new(id: String) -> (r: OpenFile)
        ensures
            r.id@ == id@,
            r.write_buffer@ == Seq::<WriteOpView>::empty(),
            r.write_buffer.wf(),
            r.write_buffer.spec_size() == 0,
    {
        OpenFile { id, write_buffer: WriteBuffer::new() }
    }
}

/// Maps file handles, assigned from one upward, to open files.
pub struct OpenFileHandler {
    pub files: Vec<(u64, OpenFile)>,
    pub next_fh: u64,
}

impl OpenFileHandler {
    /// Handles are unique, below the next handle to assign (which starts
    /// at one), and every buffer is well-formed.
    pub open spec fn wf(self) -> bool {
        &&& self.next_fh >= 1
        &&& forall|i: int|
            0 <= i < self.files@.len() ==> 1 <= (#[trigger] self.files@[i]).0 < self.next_fh
        &&& forall|i: int, j: int|
            0 <= i < j < self.files@.len() ==> (#[trigger] self.files@[i]).0 != (
            #[trigger] self.files@[j]).0
        &&& forall|i: int| 0 <= i < self.files@.len() ==> (#[trigger] self.files@[i]).1.write_buffer.wf()
    }

    /// Whether a handle is open.
    pub open spec fn has_fh(self, fh: u64) -> bool {
        exists|i: int| 0 <= i < self.files@.len() && (#[trigger] self.files@[i]).0 == fh
    }

    /// The position of an open handle in the table.
    pub open spec fn idx_of(self, fh: u64) -> int {
        choose|i: int| 0 <= i < self.files@.len() && (#[trigger] self.files@[i]).0 == fh
    }

    /// The open file a handle names.
    pub open spec fn entry(self, fh: u64) -> OpenFile {
        self.files@[self.idx_of(fh)].1
    }

    /// Any position holding the handle is the position of the handle.
    pub proof fn lemma_idx_unique(self, fh: u64, i: int)
        requires
            self.wf(),
            0 <= i < self.files@.len(),
            self.files@[i].0 == fh,
        ensures
            self.idx_of(fh) == i,
            self.has_fh(fh),
    {
        assert(self.has_fh(fh));
        let j = self.idx_of(fh);
        if i < j {
            assert(self.files@[i].0 != self.files@[j].0);
        } else if j < i {
            assert(self.files@[j].0 != self.files@[i].0);
        }
    }

    pub fn new() -> (r: OpenFileHandler)
        ensures
            r.wf(),
            r.files@ == Seq::<(u64, OpenFile)>::empty(),
            r.next_fh == 1,
    {
        OpenFileHandler { files: Vec::new(), next_fh: 1 }
    }

    /// Opens a file: assigns the next handle to the given entity id with
    /// an empty write buffer.
    pub fn open_file(&mut self, id: String) -> (fh: u64)
        requires
            old(self).wf(),
            old(self).next_fh < u64::MAX,
        ensures
            final(self).wf(),
            fh == old(self).next_fh,
            final(self).next_fh == old(self).next_fh + 1,
            final(self).files@.len() == old(self).files@.len() + 1,
            final(self).files@.last().0 == fh,
            final(self).files@.last().1.id@ == id@,
            final(self).files@.last().1.write_buffer@ == Seq::<WriteOpView>::empty(),
            final(self).files@.last().1.write_buffer.spec_size() == 0,
            final(self).files@.drop_last() == old(self).files@,
            final(self).has_fh(fh),
            final(self).idx_of(fh) == old(self).files@.len(),
    {
        let open_file = OpenFile::new(id);
        let fh = self.next_fh;
        self.files.push((fh, open_file));
        self.next_fh = self.next_fh + 1;
        proof {
            assert(self.files@.drop_last() =~= old(self).files@);
            self.lemma_idx_unique(fh, old(self).files@.len() as int);
        }
        fh
    }

    /// Closes a handle: removes its table entry, dropping any writes
    /// still buffered. Closing a handle that is not open does nothing.
    pub fn close_file(&mut self, fh: u64)
        requires
            old(self).wf(),
        ensures
            final(self).wf(),
            final(self).next_fh == old(self).next_fh,
            !final(self).has_fh(fh),
            old(self).has_fh(fh) ==> final(self).files@ == old(self).files@.remove(
                old(self).idx_of(fh),
            ),
            !old(self).has_fh(fh) ==> final(self).files@ == old(self).files@,
    {
        let ghost pre = self.files@;
        let mut i: usize = 0;
        while i < self.files.len()
            invariant
                i <= self.files@.len(),
                self == old(self),
                forall|j: int| 0 <= j < i ==> (#[trigger] pre[j]).0 != fh,
            decreases self.files@.len() - i,
        {
            if self.files[i].0 == fh {
                proof {
                    self.lemma_idx_unique(fh, i as int);
                }
                self.files.remove(i);
                proof {
                    assert forall|k: int|
                        0 <= k < self.files@.len() implies !((#[trigger] self.files@[k]).0
                        == fh) by {
                        if k < i {
                            assert(self.files@[k] == pre[k]);
                        } else {
                            assert(self.files@[k] == pre[k + 1]);
                            old(self).lemma_idx_unique(fh, i as int);
                        }
                    };
                    assert(!self.has_fh(fh));
                }
                return ;
            }
            i = i + 1;
        }
        proof {
            if self.has_fh(fh) {
                let k = choose|k: int|
                    0 <= k < self.files@.len() && (#[trigger] self.files@[k]).0 == fh;
                assert(pre[k].0 != fh);
            }
        }
    }

    /// The open handles, in the order they were opened.
    pub fn get_file_handles(&self) -> (r: Vec<u64>)
        ensures
            r@ == self.files@.map_values(|p: (u64, OpenFile)| p.0),
    {
        let mut r: Vec<u64> = Vec::new();
        let mut i: usize = 0;
        proof {
            assert(r@ =~= self.files@.subrange(0, 0).map_values(|p: (u64, OpenFile)| p.0));
        }
        while i < self.files.len()
            invariant
                i <= self.files@.len(),
                r@ == self.files@.subrange(0, i as int).map_values(|p: (u64, OpenFile)| p.0),
            decreases self.files@.len() - i,
        {
            r.push(self.files[i].0);
            proof {
                assert(self.files@.subrange(0, i + 1).drop_last() =~= self.files@.subrange(
                    0,
                    i as int,
                ));
                assert(r@ =~= self.files@.subrange(0, i + 1).map_values(
                    |p: (u64, OpenFile)| p.0,
                ));
            }
            i = i + 1;
        }
        proof {
            assert(self.files@.subrange(0, self.files@.len() as int) =~= self.files@);
        }
        r
    }

    /// Buffers a write on an open handle, returning whether the buffer
    /// has reached the flush threshold.
    pub fn write(&mut self, fh: u64, operation: WriteOperation) -> (r: bool)
        requires
            old(self).wf(),
            old(self).has_fh(fh),
            old(self).entry(fh).write_buffer.spec_size() + operation@.data.len() <= usize::MAX,
        ensures
            final(self).wf(),
            final(self).next_fh == old(self).next_fh,
            final(self).files@.len() == old(self).files@.len(),
            forall|j: int|
                0 <= j < final(self).files@.len() && j != old(self).idx_of(fh)
                    ==> #[trigger] final(self).files@[j] == old(self).files@[j],
            final(self).has_fh(fh),
            final(self).idx_of(fh) == old(self).idx_of(fh),
            final(self).entry(fh).id == old(self).entry(fh).id,
            final(self).entry(fh).write_buffer.spec_size() == old(self).entry(
                fh,
            ).write_buffer.spec_size() + operation@.data.len(),
            old(self).entry(fh).write_buffer@.contains(operation@) ==> final(self).entry(
                fh,
            ).write_buffer@ == old(self).entry(fh).write_buffer@,
            !old(self).entry(fh).write_buffer@.contains(operation@) ==> final(self).entry(
                fh,
            ).write_buffer@.to_multiset() == old(self).entry(
                fh,
            ).write_buffer@.to_multiset().insert(operation@),
            r == (final(self).entry(fh).write_buffer.spec_size() >= FLUSH_THRESHOLD),
    {
        let index = self.find_fh(fh);
        let ghost i = index as int;
        let mut moved = self.files.remove(index);
        let r = moved.1.write_buffer.write(operation);
        self.files.insert(index, moved);
        proof {
            assert(self.files@ =~= old(self).files@.update(i, self.files@[i]));
            assert(self.files@[i].0 == fh);
            self.lemma_idx_unique(fh, i);
        }
        r
    }

    /// Drains and coalesces the buffered writes of an open handle,
    /// returning the entity id and the coalesced operations.
    pub fn flush(&mut self, fh: u64) -> (r: (String, Vec<WriteOperation>))
        requires
            old(self).wf(),
            old(self).has_fh(fh),
        ensures
            final(self).wf(),
            final(self).next_fh == old(self).next_fh,
            final(self).files@.len() == old(self).files@.len(),
            forall|j: int|
                0 <= j < final(self).files@.len() && j != old(self).idx_of(fh)
                    ==> #[trigger] final(self).files@[j] == old(self).files@[j],
            final(self).has_fh(fh),
            final(self).idx_of(fh) == old(self).idx_of(fh),
            final(self).entry(fh).id == old(self).entry(fh).id,
            final(self).entry(fh).write_buffer@ == Seq::<WriteOpView>::empty(),
            final(self).entry(fh).write_buffer.spec_size() == 0,
            r.0@ == old(self).entry(fh).id@,
            r.1@.map_values(|o: WriteOperation| o@) == coalesce(old(self).entry(
                fh,
            ).write_buffer@),
    {
        let index = self.find_fh(fh);
        let ghost i = index as int;
        let mut moved = self.files.remove(index);
        let ops = moved.1.write_buffer.flush();
        let id = crate::clone_string(&moved.1.id);
        self.files.insert(index, moved);
        proof {
            assert(self.files@ =~= old(self).files@.update(i, self.files@[i]));
            assert(self.files@[i].0 == fh);
            self.lemma_idx_unique(fh, i);
        }
        (id, ops)
    }

    /// The table position of an open handle.
    fn find_fh(&self, fh: u64) -> (r: usize)
        requires
            self.wf(),
            self.has_fh(fh),
        ensures
            r as int == self.idx_of(fh),
            r < self.files@.len(),
            self.files@[r as int].0 == fh,
    {
        let mut i: usize = 0;
        while i < self.files.len()
            invariant
                i <= self.files@.len(),
                forall|j: int| 0 <= j < i ==> (#[trigger] self.files@[j]).0 != fh,
            decreases self.files@.len() - i,
        {
            if self.files[i].0 == fh {
                proof {
                    self.lemma_idx_unique(fh, i as int);
                }
                return i;
            }
            i = i + 1;
        }
        proof {
            let k = choose|k: int|
                0 <= k < self.files@.len() && (#[trigger] self.files@[k]).0 == fh;
            assert(self.files@[k].0 != fh);
        }
        unreached()
    }
}

} // verus!
