//! Per-open-file buffering of pending writes: an ordered set of
//! `(offset, bytes)` operations with a running byte total, coalesced on
//! flush.

use vstd::prelude::*;

verus! {

/// A write buffer flushes once it holds at least this many bytes.
pub const FLUSH_THRESHOLD: usize = 8388608;

/// The mathematical value of a pending write.
pub struct WriteOpView {
    pub offset: int,
    pub data: Seq<u8>,
}

/// One pending write: `data` to be written at byte `offset` of the file.
#[derive(Debug)]
pub struct WriteOperation {
    pub offset: usize,
    pub data: Vec<u8>,
}

impl View for WriteOperation {
    type V = WriteOpView;

    open spec fn view(&self) -> WriteOpView {
        WriteOpView { offset: self.offset as int, data: self.data@ }
    }
}

impl WriteOperation {
    pub fn new(offset: usize, data: Vec<u8>) -> (r: WriteOperation)
        ensures
            r@.offset == offset,
            r@.data == data@,
    {
        WriteOperation { offset, data }
    }
}

/// Strict lexicographic order on byte sequences.
pub open spec fn bytes_lt(a: Seq<u8>, b: Seq<u8>) -> bool
    decreases a.len(),
{
    if b.len() == 0 {
        false
    } else if a.len() == 0 {
        true
    } else if a.first() < b.first() {
        true
    } else if a.first() > b.first() {
        false
    } else {
        bytes_lt(a.drop_first(), b.drop_first())
    }
}

/// Strict order on pending writes: by offset, then by content.
pub open spec fn op_lt(a: WriteOpView, b: WriteOpView) -> bool {
    a.offset < b.offset || (a.offset == b.offset && bytes_lt(a.data, b.data))
}

/// Two byte sequences are ordered one way or the other, or equal.
pub proof fn lemma_bytes_lt_trichotomy(a: Seq<u8>, b: Seq<u8>)
    ensures
        bytes_lt(a, b) || bytes_lt(b, a) || a == b,
        bytes_lt(a, b) ==> !bytes_lt(b, a) && a != b,
    decreases a.len() + b.len(),
{
    if a.len() > 0 && b.len() > 0 && a.first() == b.first() {
        lemma_bytes_lt_trichotomy(a.drop_first(), b.drop_first());
        if a.drop_first() == b.drop_first() {
            assert(a.len() == b.len());
            assert forall|k: int| 0 <= k < a.len() implies a[k] == b[k] by {
                if k > 0 {
                    assert(a.drop_first()[k - 1] == a[k]);
                    assert(b.drop_first()[k - 1] == b[k]);
                }
            };
            assert(a =~= b);
        }
        if a == b {
            assert(a.drop_first() == b.drop_first());
        }
    } else if a.len() == 0 && b.len() == 0 {
        assert(a =~= b);
    }
}

/// Pending writes are ordered one way or the other, or equal.
pub proof fn lemma_op_lt_trichotomy(a: WriteOpView, b: WriteOpView)
    ensures
        op_lt(a, b) || op_lt(b, a) || a == b,
        op_lt(a, b) ==> !op_lt(b, a) && a != b,
{
    lemma_bytes_lt_trichotomy(a.data, b.data);
    if !op_lt(a, b) && !op_lt(b, a) {
        assert(a.offset == b.offset && a.data == b.data);
        assert(a == b);
    }
}

/// The buffer order is transitive.
pub proof fn lemma_op_lt_trans(a: WriteOpView, b: WriteOpView, c: WriteOpView)
    requires
        op_lt(a, b),
        op_lt(b, c),
    ensures
        op_lt(a, c),
{
    if a.offset == b.offset && b.offset == c.offset {
        lemma_bytes_lt_trans(a.data, b.data, c.data);
    }
}

/// Lexicographic order on bytes is transitive.
proof fn lemma_bytes_lt_trans(a: Seq<u8>, b: Seq<u8>, c: Seq<u8>)
    requires
        bytes_lt(a, b),
        bytes_lt(b, c),
    ensures
        bytes_lt(a, c),
    decreases a.len() + b.len() + c.len(),
{
    if a.len() > 0 && b.len() > 0 && c.len() > 0 && a.first() == b.first() && b.first()
        == c.first() {
        lemma_bytes_lt_trans(a.drop_first(), b.drop_first(), c.drop_first());
    }
}

/// A sequence of pending writes in strictly increasing order.
pub open spec fn ops_sorted(s: Seq<WriteOpView>) -> bool {
    forall|i: int, j: int| 0 <= i < j < s.len() ==> op_lt(s[i], s[j])
}

/// One coalescing step: a write starting exactly where the previously
/// accumulated write ends extends it; any other opens a new entry.
pub open spec fn coalesce_step(acc: Seq<WriteOpView>, op: WriteOpView) -> Seq<WriteOpView> {
    if acc.len() > 0 && acc.last().offset + acc.last().data.len() == op.offset {
        acc.drop_last().push(
            WriteOpView { offset: acc.last().offset, data: acc.last().data + op.data },
        )
    } else {
        acc.push(op)
    }
}

/// Pending writes coalesced in order: adjacent runs merge into one.
pub open spec fn coalesce(ops: Seq<WriteOpView>) -> Seq<WriteOpView>
    decreases ops.len(),
{
    if ops.len() == 0 {
        Seq::<WriteOpView>::empty()
    } else {
        coalesce_step(coalesce(ops.drop_last()), ops.last())
    }
}

/// Compares two byte slices lexicographically: negative, zero or
/// positive as `a` is below, equal to or above `b`.
fn bytes_cmp(a: &[u8], b: &[u8]) -> (r: i8)
    ensures
        (r == -1i8) <==> bytes_lt(a@, b@),
        (r == 1i8) <==> bytes_lt(b@, a@),
        (r == 0i8) <==> a@ == b@,
{
    proof {
        lemma_bytes_lt_trichotomy(a@, b@);
        assert(a@.subrange(0, a@.len() as int) =~= a@);
        assert(b@.subrange(0, b@.len() as int) =~= b@);
    }
    let mut i: usize = 0;
    loop
        invariant
            i <= a@.len(),
            i <= b@.len(),
            bytes_lt(a@, b@) == bytes_lt(
                a@.subrange(i as int, a@.len() as int),
                b@.subrange(i as int, b@.len() as int),
            ),
            bytes_lt(b@, a@) == bytes_lt(
                b@.subrange(i as int, b@.len() as int),
                a@.subrange(i as int, a@.len() as int),
            ),
            (a@ == b@) == (a@.subrange(i as int, a@.len() as int) == b@.subrange(
                i as int,
                b@.len() as int,
            )),
        decreases a@.len() - i,
    {
        let ghost ra = a@.subrange(i as int, a@.len() as int);
        let ghost rb = b@.subrange(i as int, b@.len() as int);
        proof {
            lemma_bytes_lt_trichotomy(a@, b@);
        }
        if i >= a.len() || i >= b.len() {
            if a.len() == b.len() {
                proof {
                    assert(ra =~= Seq::<u8>::empty());
                    assert(rb =~= Seq::<u8>::empty());
                    assert(ra == rb);
                }
                return 0;
            } else if i >= a.len() {
                proof {
                    assert(ra =~= Seq::<u8>::empty());
                    assert(rb.len() > 0);
                    assert(bytes_lt(ra, rb));
                }
                return -1;
            } else {
                proof {
                    assert(rb =~= Seq::<u8>::empty());
                    assert(ra.len() > 0);
                    assert(bytes_lt(rb, ra));
                }
                return 1;
            }
        }
        let ca = a[i];
        let cb = b[i];
        proof {
            assert(ra.first() == a@[i as int] && rb.first() == b@[i as int]);
        }
        if ca < cb {
            proof {
                assert(bytes_lt(ra, rb));
            }
            return -1;
        } else if ca > cb {
            proof {
                assert(bytes_lt(rb, ra));
            }
            return 1;
        }
        proof {
            assert(ra.drop_first() =~= a@.subrange(i + 1, a@.len() as int));
            assert(rb.drop_first() =~= b@.subrange(i + 1, b@.len() as int));
            if ra == rb {
                assert(ra.drop_first() == rb.drop_first());
            }
            if ra.drop_first() == rb.drop_first() {
                assert(ra =~= rb);
            }
        }
        i = i + 1;
    }
}

/// Compares two pending writes in the buffer order: by offset, then by
/// content.
fn op_cmp(a: &WriteOperation, b: &WriteOperation) -> (r: i8)
    ensures
        (r == -1i8) <==> op_lt(a@, b@),
        (r == 1i8) <==> op_lt(b@, a@),
        (r == 0i8) <==> a@ == b@,
{
    proof {
        lemma_op_lt_trichotomy(a@, b@);
    }
    if a.offset < b.offset {
        -1
    } else if a.offset > b.offset {
        1
    } else {
        let c = bytes_cmp(a.data.as_slice(), b.data.as_slice());
        proof {
            if a@.data == b@.data {
                assert(a@ == b@);
            }
        }
        c
    }
}

/// An ordered set of pending writes for one open file, with the running
/// byte total of everything inserted since the last flush.
pub struct WriteBuffer {
    pub size: usize,
    pub operations: Vec<WriteOperation>,
}

impl View for WriteBuffer {
    type V = Seq<WriteOpView>;

    open spec fn view(&self) -> Seq<WriteOpView> {
        self.operations@.map_values(|o: WriteOperation| o@)
    }
}

impl WriteBuffer {
    /// The buffer's pending writes are strictly ordered (it is a set).
    pub open spec fn wf(self) -> bool {
        ops_sorted(self@)
    }

    /// The running byte total.
    pub open spec fn spec_size(self) -> int {
        self.size as int
    }

    pub fn new() -> (r: WriteBuffer)
        ensures
            r@ == Seq::<WriteOpView>::empty(),
            r.wf(),
            r.spec_size() == 0,
    {
        let r = WriteBuffer { size: 0, operations: Vec::new() };
        proof {
            assert(r@ =~= Seq::<WriteOpView>::empty());
        }
        r
    }

    /// Whether the byte total has reached the flush threshold.
    pub fn is_full(&self) -> (r: bool)
        ensures
            r == (self.spec_size() >= FLUSH_THRESHOLD),
    {
        self.size >= FLUSH_THRESHOLD
    }

    /// Inserts a pending write and accounts its bytes, returning whether
    /// the buffer has reached the flush threshold. A write equal in
    /// offset and content to one already buffered leaves the set
    /// unchanged (its bytes still count toward the total).
    pub fn write(&mut self, write_operation: WriteOperation) -> (r: bool)
        requires
            old(self).wf(),
            old(self).spec_size() + write_operation@.data.len() <= usize::MAX,
        ensures
            final(self).wf(),
            final(self).spec_size() == old(self).spec_size() + write_operation@.data.len(),
            old(self)@.contains(write_operation@) ==> final(self)@ == old(self)@,
            !old(self)@.contains(write_operation@) ==> final(self)@.to_multiset() == old(
                self,
            )@.to_multiset().insert(write_operation@),
            r == (final(self).spec_size() >= FLUSH_THRESHOLD),
    {
        self.size = self.size + write_operation.data.len();
        let ghost v = write_operation@;
        let ghost pre = self@;
        let ghost newsize = self.size as int;
        let mut i: usize = 0;
        while i < self.operations.len()
            invariant
                i <= self.operations@.len(),
                self@ == pre,
                self.size as int == newsize,
                self.operations@.len() == pre.len(),
                ops_sorted(pre),
                write_operation@ == v,
                forall|j: int| 0 <= j < i ==> op_lt(#[trigger] pre[j], v),
            decreases self.operations@.len() - i,
        {
            let a_ref = &self.operations[i];
            proof {
                assert(*a_ref == self.operations@[i as int]);
                assert(self.operations@[i as int]@ == pre[i as int]);
            }
            let c = op_cmp(a_ref, &write_operation);
            if c == 0 {
                proof {
                    assert(pre[i as int] == v);
                    assert(pre.contains(v));
                }
                return self.is_full();
            }
            if c == 1 {
                // The entry at the scan point is above the new one.
                proof {
                    assert(op_lt(v, pre[i as int]));
                    assert(!pre.contains(v)) by {
                        if pre.contains(v) {
                            let k = choose|k: int| 0 <= k < pre.len() && pre[k] == v;
                            if k < i {
                                lemma_op_lt_trichotomy(pre[k], v);
                            } else if k == i {
                                lemma_op_lt_trichotomy(v, pre[i as int]);
                            } else {
                                assert(op_lt(pre[i as int], pre[k]));
                                lemma_op_lt_trans(v, pre[i as int], pre[k]);
                                lemma_op_lt_trichotomy(v, pre[k]);
                            }
                        }
                    };
                }
                self.operations.insert(i, write_operation);
                proof {
                    assert(self@ =~= pre.insert(i as int, v));
                    lemma_sorted_insert(pre, v, i as int);
                    lemma_insert_to_multiset(pre, v, i as int);
                }
                return self.is_full();
            }
            proof {
                lemma_op_lt_trichotomy(pre[i as int], v);
                assert(op_lt(pre[i as int], v));
            }
            i = i + 1;
        }
        proof {
            assert(!pre.contains(v)) by {
                if pre.contains(v) {
                    let k = choose|k: int| 0 <= k < pre.len() && pre[k] == v;
                    lemma_op_lt_trichotomy(pre[k], v);
                }
            };
        }
        self.operations.push(write_operation);
        proof {
            assert(self@ =~= pre.push(v));
            assert(pre.push(v) =~= pre.insert(pre.len() as int, v));
            lemma_sorted_insert(pre, v, pre.len() as int);
            lemma_insert_to_multiset(pre, v, pre.len() as int);
        }
        self.is_full()
    }

    /// Inserts a pending write without reporting fullness.
    pub fn add_write_op(&mut self, write_operation: WriteOperation)
        requires
            old(self).wf(),
            old(self).spec_size() + write_operation@.data.len() <= usize::MAX,
        ensures
            final(self).wf(),
            final(self).spec_size() == old(self).spec_size() + write_operation@.data.len(),
            old(self)@.contains(write_operation@) ==> final(self)@ == old(self)@,
            !old(self)@.contains(write_operation@) ==> final(self)@.to_multiset() == old(
                self,
            )@.to_multiset().insert(write_operation@),
    {
        let _ = self.write(write_operation);
    }

    /// Takes the buffered writes, coalesced in order: whenever a write
    /// starts exactly where the previous one ends, its bytes extend the
    /// previous one. Resets the byte total to zero.
    pub fn flush(&mut self) -> (r: Vec<WriteOperation>)
        ensures
            final(self)@ == Seq::<WriteOpView>::empty(),
            final(self).wf(),
            final(self).spec_size() == 0,
            r@.map_values(|o: WriteOperation| o@) == coalesce(old(self)@),
    {
        let ghost pre = self@;
        let mut result: Vec<WriteOperation> = Vec::new();
        let mut i: usize = 0;
        proof {
            assert(pre.subrange(0, 0) =~= Seq::<WriteOpView>::empty());
            assert(result@.map_values(|o: WriteOperation| o@) =~= coalesce(pre.subrange(0, 0)));
        }
        while i < self.operations.len()
            invariant
                i <= self.operations@.len(),
                self@ == pre,
                self.operations@.len() == pre.len(),
                result@.map_values(|o: WriteOperation| o@) == coalesce(pre.subrange(0, i as int)),
            decreases self.operations@.len() - i,
        {
            let op = copy_operation(&self.operations, i);
            let ghost opv = op@;
            proof {
                assert(opv == pre[i as int]);
            }
            let ghost acc = result@.map_values(|o: WriteOperation| o@);
            let mut extend = false;
            if result.len() > 0 {
                let last_ref = &result[result.len() - 1];
                proof {
                    assert(result@[result@.len() - 1]@ == acc.last());
                }
                if last_ref.offset <= usize::MAX - last_ref.data.len() && last_ref.offset
                    + last_ref.data.len() == op.offset {
                    extend = true;
                }
                proof {
                    assert(extend == (acc.last().offset + acc.last().data.len() == opv.offset));
                }
            }
            if extend {
                let mut last = result.pop().unwrap();
                let ghost lastv = last@;
                let mut data = op.data;
                last.data.append(&mut data);
                proof {
                    assert(last@.data == lastv.data + opv.data);
                    assert(last@.offset == lastv.offset);
                }
                result.push(last);
                proof {
                    assert(lastv == acc.last());
                    assert(result@.map_values(|o: WriteOperation| o@) =~= acc.drop_last().push(
                        WriteOpView { offset: acc.last().offset, data: acc.last().data + opv.data },
                    ));
                    assert(result@.map_values(|o: WriteOperation| o@) == coalesce_step(acc, opv));
                }
            } else {
                result.push(op);
                proof {
                    assert(result@.map_values(|o: WriteOperation| o@) =~= acc.push(opv));
                    assert(result@.map_values(|o: WriteOperation| o@) == coalesce_step(acc, opv));
                }
            }
            proof {
                assert(pre.subrange(0, i + 1).drop_last() =~= pre.subrange(0, i as int));
                assert(pre.subrange(0, i + 1).last() == pre[i as int]);
            }
            i = i + 1;
        }
        self.operations = Vec::new();
        self.size = 0;
        proof {
            assert(pre.subrange(0, pre.len() as int) =~= pre);
            assert(self@ =~= Seq::<WriteOpView>::empty());
        }
        result
    }
}

/// A copy of the operation at `i`, bytes and offset.
fn copy_operation(ops: &Vec<WriteOperation>, i: usize) -> (r: WriteOperation)
    requires
        i < ops@.len(),
    ensures
        r@ == ops@[i as int]@,
{
    let offset = ops[i].offset;
    let mut data: Vec<u8> = Vec::new();
    let n = ops[i].data.len();
    let mut j: usize = 0;
    proof {
        assert(data@ =~= ops@[i as int].data@.subrange(0, 0));
    }
    while j < n
        invariant
            i < ops@.len(),
            n == ops@[i as int].data@.len(),
            j <= n,
            data@ == ops@[i as int].data@.subrange(0, j as int),
        decreases n - j,
    {
        data.push(ops[i].data[j]);
        proof {
            assert(data@ =~= ops@[i as int].data@.subrange(0, j + 1));
        }
        j = j + 1;
    }
    proof {
        assert(data@ =~= ops@[i as int].data@);
    }
    WriteOperation { offset, data }
}

/// Inserting at the point the scan found keeps the order strict.
proof fn lemma_sorted_insert(s: Seq<WriteOpView>, v: WriteOpView, i: int)
    requires
        ops_sorted(s),
        0 <= i <= s.len(),
        forall|j: int| 0 <= j < i ==> op_lt(#[trigger] s[j], v),
        i < s.len() ==> op_lt(v, s[i]),
    ensures
        ops_sorted(s.insert(i, v)),
{
    let t = s.insert(i, v);
    assert forall|p: int, q: int| 0 <= p < q < t.len() implies op_lt(t[p], t[q]) by {
        if p < i && q == i {
            assert(t[p] == s[p] && t[q] == v);
        } else if p == i && q > i {
            assert(t[p] == v && t[q] == s[q - 1]);
            if q - 1 > i {
                assert(op_lt(s[i], s[q - 1]));
                lemma_op_lt_trans(v, s[i], s[q - 1]);
            }
        } else if p < i && q > i {
            assert(t[p] == s[p] && t[q] == s[q - 1]);
        } else if q < i {
            assert(t[p] == s[p] && t[q] == s[q]);
        } else {
            assert(t[p] == s[p - 1] && t[q] == s[q - 1]);
        }
    };
}

/// Inserting anywhere adds exactly one occurrence to the multiset.
proof fn lemma_insert_to_multiset(s: Seq<WriteOpView>, v: WriteOpView, i: int)
    requires
        0 <= i <= s.len(),
    ensures
        s.insert(i, v).to_multiset() == s.to_multiset().insert(v),
    decreases s.len(),
{
    broadcast use vstd::seq_lib::group_to_multiset_ensures;

    if i == s.len() {
        assert(s.insert(i, v) =~= s.push(v));
    } else {
        lemma_insert_to_multiset(s.drop_last(), v, i);
        assert(s.insert(i, v) =~= s.drop_last().insert(i, v).push(s.last()));
        assert(s =~= s.drop_last().push(s.last()));
        assert(s.drop_last().insert(i, v).push(s.last()).to_multiset() =~= s.drop_last().insert(
            i,
            v,
        ).to_multiset().insert(s.last()));
        assert(s.to_multiset() =~= s.drop_last().to_multiset().insert(s.last()));
        assert(s.insert(i, v).to_multiset() =~= s.to_multiset().insert(v));
    }
}

} // verus!
