//! Filesystem-shaped operations over the entity store: creation and
//! removal with parent time upkeep, renames, attribute changes, and
//! chunked content reads and writes.

use vstd::prelude::*;

use crate::blob_id::{blob_id_of, trim_zeros, zero_pad, zeros};
use crate::errors::{OperationError, OperationErrorType, OperationResult};
use crate::id_generator::IdGenerator;
use crate::store::{
    apply_attrs_view, has_by_name, new_entity_view, spec_create_parent, Store, StoreModel,
};
use crate::timespec::Timespec;
use crate::types::{DirEntity, DirEntityView, FileDev, FileMode, FileType};
use crate::BLOB_SIZE;

verus! {

/// An optional timestamp: present when the flag asks for an update.
pub open spec fn opt_time(b: bool, t: Timespec) -> Option<Timespec> {
    if b {
        Some(t)
    } else {
        None
    }
}

/// The file table after an entity's times are touched: absent ids leave
/// the table alone.
pub open spec fn after_update_time(
    f: Map<Seq<char>, DirEntityView>,
    id: Seq<char>,
    t: Timespec,
    update_atime: bool,
    update_mtime: bool,
    update_ctime: bool,
) -> Map<Seq<char>, DirEntityView> {
    if f.contains_key(id) {
        f.insert(
            id,
            apply_attrs_view(
                f[id],
                None,
                None,
                opt_time(update_atime, t),
                opt_time(update_mtime, t),
                opt_time(update_ctime, t),
            ),
        )
    } else {
        f
    }
}

/// The logical content of one chunk: the stored blob zero-padded to the
/// chunk width; a missing row, index or blob reads as all zeros.
pub open spec fn padded_chunk(m: StoreModel, id: Seq<char>, c: int) -> Seq<u8> {
    if m.chunks.contains_key(id) && 0 <= c < m.chunks[id].len() && m.blobs.contains_key(
        m.chunks[id][c],
    ) && m.blobs[m.chunks[id][c]].len() <= BLOB_SIZE {
        zero_pad(m.blobs[m.chunks[id][c]], BLOB_SIZE as int)
    } else {
        zeros(BLOB_SIZE as int)
    }
}

/// The logical content of the chunks `[start, end)`, concatenated.
pub open spec fn span(m: StoreModel, id: Seq<char>, start: int, end: int) -> Seq<u8>
    decreases end - start,
{
    if start >= end {
        Seq::<u8>::empty()
    } else {
        padded_chunk(m, id, start) + span(m, id, start + 1, end)
    }
}

/// The number of chunks a file has.
pub open spec fn chunk_count(m: StoreModel, id: Seq<char>) -> int {
    if m.chunks.contains_key(id) {
        m.chunks[id].len() as int
    } else {
        0
    }
}

/// The smaller of two integers.
pub open spec fn min_int(a: int, b: int) -> int {
    if a <= b {
        a
    } else {
        b
    }
}

/// The larger of two integers.
pub open spec fn max_int(a: int, b: int) -> int {
    if a >= b {
        a
    } else {
        b
    }
}

/// The base a write lays its bytes over: the chunk's old logical
/// content where the chunk existed, zeros where it did not.
pub open spec fn write_base(m: StoreModel, id: Seq<char>, c: int) -> Seq<u8> {
    if c < chunk_count(m, id) {
        padded_chunk(m, id, c)
    } else {
        zeros(BLOB_SIZE as int)
    }
}

/// What a read returns: the slice `[offset, offset + size)` of the
/// covered chunks' logical content, short where the chunks run out.
pub open spec fn read_result(m: StoreModel, id: Seq<char>, offset: int, size: int) -> Seq<u8> {
    let b = BLOB_SIZE as int;
    let n = chunk_count(m, id);
    let start = offset / b;
    let end = min_int(n, (offset + size) / b + 1);
    if start >= n {
        Seq::<u8>::empty()
    } else {
        let sp = span(m, id, start, end);
        let local = offset - start * b;
        sp.subrange(local, local + min_int(size, sp.len() - local))
    }
}

/// The number of chunks a file of the given size needs: one per started
/// chunk width.
pub open spec fn spec_chunk_count_for(size: int) -> int {
    (size + BLOB_SIZE - 1) / (BLOB_SIZE as int)
}

/// The chunk count covers the size and wastes less than one chunk.
pub proof fn lemma_ceil_chunks(size: int)
    requires
        size >= 0,
    ensures
        spec_chunk_count_for(size) * BLOB_SIZE >= size,
        spec_chunk_count_for(size) * BLOB_SIZE < size + BLOB_SIZE,
        size % (BLOB_SIZE as int) != 0 ==> spec_chunk_count_for(size) == size / (
        BLOB_SIZE as int) + 1,
        size % (BLOB_SIZE as int) == 0 ==> spec_chunk_count_for(size) == size / (
        BLOB_SIZE as int),
        spec_chunk_count_for(size) >= 0,
{
    let b = BLOB_SIZE as int;
    vstd::arithmetic::div_mod::lemma_fundamental_div_mod(size, b);
    vstd::arithmetic::div_mod::lemma_mod_bound(size, b);
    let q = size / b;
    let r = size % b;
    vstd::arithmetic::div_mod::lemma_div_pos_is_pos(size, b);
    if r == 0 {
        assert(size + b - 1 == q * b + (b - 1));
        vstd::arithmetic::div_mod::lemma_fundamental_div_mod_converse(size + b - 1, b, q, b - 1);
        assert(q * b >= size && q * b < size + b);
    } else {
        assert(size + b - 1 == (q + 1) * b + (r - 1)) by (nonlinear_arith)
            requires
                size == b * q + r,
        ;
        vstd::arithmetic::div_mod::lemma_fundamental_div_mod_converse(
            size + b - 1,
            b,
            q + 1,
            r - 1,
        );
        assert((q + 1) * b >= size && (q + 1) * b < size + b) by (nonlinear_arith)
            requires
                size == b * q + r,
                0 < r < b,
        ;
    }
}

/// The chunk count for a size, executably.
fn chunk_count_for(size: u64) -> (r: usize)
    requires
        size / (BLOB_SIZE as u64) < usize::MAX - 1,
    ensures
        r as int == spec_chunk_count_for(size as int),
{
    proof {
        lemma_ceil_chunks(size as int);
    }
    let q = size / (BLOB_SIZE as u64);
    let rem = size % (BLOB_SIZE as u64);
    if rem != 0 {
        (q as usize) + 1
    } else {
        q as usize
    }
}

/// The modification time a set-attributes call records: a size change
/// counts as a modification.
pub open spec fn spec_setattr_mtim(
    mtim: Option<Timespec>,
    size: Option<u64>,
    t: Timespec,
) -> Option<Timespec> {
    if size is Some {
        Some(t)
    } else {
        mtim
    }
}

/// The change time a set-attributes call records: any ownership,
/// permission or size change touches it.
pub open spec fn spec_setattr_ctim(
    mode: Option<FileMode>,
    uid: Option<u32>,
    gid: Option<u32>,
    size: Option<u64>,
    t: Timespec,
) -> Option<Timespec> {
    if mode is Some || uid is Some || gid is Some || size is Some {
        Some(t)
    } else {
        None
    }
}

/// A byte sequence with `data` laid over it starting at `at`; bytes of
/// `data` falling outside the base are dropped.
pub open spec fn overlay(base: Seq<u8>, at: int, data: Seq<u8>) -> Seq<u8> {
    Seq::new(
        base.len(),
        |i: int|
            if at <= i < at + data.len() {
                data[i - at]
            } else {
                base[i]
            },
    )
}

/// The span grows on the right one chunk at a time.
pub proof fn lemma_span_snoc(m: StoreModel, id: Seq<char>, start: int, end: int)
    requires
        start <= end,
    ensures
        span(m, id, start, end + 1) == span(m, id, start, end) + padded_chunk(m, id, end),
    decreases end - start,
{
    if start == end {
        assert(span(m, id, start, end) =~= Seq::<u8>::empty());
        assert(span(m, id, start + 1, end + 1) =~= Seq::<u8>::empty());
        assert(span(m, id, start, end + 1) =~= padded_chunk(m, id, start) + Seq::<u8>::empty());
        assert(span(m, id, start, end + 1) =~= span(m, id, start, end) + padded_chunk(
            m,
            id,
            end,
        ));
    } else {
        lemma_span_snoc(m, id, start + 1, end);
        assert(span(m, id, start, end + 1) =~= span(m, id, start, end) + padded_chunk(
            m,
            id,
            end,
        ));
    }
}

/// The span's length is one chunk width per chunk.
pub proof fn lemma_span_len(m: StoreModel, id: Seq<char>, start: int, end: int)
    requires
        start <= end,
    ensures
        span(m, id, start, end).len() == (end - start) * BLOB_SIZE,
    decreases end - start,
{
    if start < end {
        lemma_span_len(m, id, start + 1, end);
        assert((end - start) * BLOB_SIZE == BLOB_SIZE + (end - start - 1) * BLOB_SIZE)
            by (nonlinear_arith);
    } else {
        assert((end - start) * BLOB_SIZE == 0) by (nonlinear_arith)
            requires
                end == start,
        ;
    }
}

/// Each byte of the span comes from the chunk covering its position.
pub proof fn lemma_span_index(m: StoreModel, id: Seq<char>, start: int, end: int, p: int)
    requires
        start <= end,
        0 <= p < (end - start) * BLOB_SIZE,
    ensures
        span(m, id, start, end)[p] == padded_chunk(m, id, start + p / (BLOB_SIZE as int))[p % (
        BLOB_SIZE as int)],
    decreases end - start,
{
    lemma_span_len(m, id, start, end);
    let b = BLOB_SIZE as int;
    if p < b {
        assert(p / b == 0 && p % b == p) by {
            vstd::arithmetic::div_mod::lemma_fundamental_div_mod_converse(p, b, 0, p);
        };
        assert(span(m, id, start, end)[p] == padded_chunk(m, id, start)[p]);
    } else {
        lemma_span_len(m, id, start + 1, end);
        assert((end - start - 1) * b == (end - start) * b - b) by (nonlinear_arith);
        lemma_span_index(m, id, start + 1, end, p - b);
        assert(span(m, id, start, end)[p] == span(m, id, start + 1, end)[p - b]);
        assert((p - b) / b == p / b - 1 && (p - b) % b == p % b) by {
            vstd::arithmetic::div_mod::lemma_fundamental_div_mod(p, b);
            vstd::arithmetic::div_mod::lemma_mod_bound(p, b);
            vstd::arithmetic::div_mod::lemma_fundamental_div_mod_converse(
                p - b,
                b,
                p / b - 1,
                p % b,
            );
        };
    }
}

/// The store with filesystem-shaped operations over it.
pub struct StoreWrapper<T: IdGenerator> {
    pub inner: Store<T>,
}

impl<T: IdGenerator> StoreWrapper<T> {
    pub open spec fn model(self) -> StoreModel {
        self.inner.model()
    }

    pub open spec fn wf(self) -> bool {
        self.inner.wf()
    }

    pub fn new(store: Store<T>) -> (r: StoreWrapper<T>)
        ensures
            r.inner == store,
    {
        StoreWrapper { inner: store }
    }

    /// The entity an id names, if any.
    pub fn try_query_file(&self, id: &str) -> (r: Option<DirEntity>)
        requires
            self.wf(),
        ensures
            match r {
                Some(d) => self.model().files.contains_key(id@) && d@ == self.model().files[id@],
                None => !self.model().files.contains_key(id@),
            },
    {
        self.inner.tables.query_file(id)
    }

    /// The entity an id names; a missing id is an error.
    pub fn query_file(&self, id: &str) -> (r: OperationResult<DirEntity>)
        requires
            self.wf(),
        ensures
            match r {
                Ok(d) => self.model().files.contains_key(id@) && d@ == self.model().files[id@],
                Err(e) => !self.model().files.contains_key(id@) && e.error_type
                    == OperationErrorType::FileDoesNotExist
            },
    {
        match self.inner.tables.query_file(id) {
            Some(d) => Ok(d),
            None => Err(OperationError::file_does_not_exist()),
        }
    }

    /// The entity at `(parent, name)`, if any.
    pub fn try_query_file_by_name(&self, parent_id: &str, name: &str) -> (r: Option<DirEntity>)
        requires
            self.wf(),
        ensures
            match r {
                Some(d) => {
                    &&& self.model().files.contains_key(d@.id)
                    &&& d@ == self.model().files[d@.id]
                    &&& d@.parent == parent_id@
                    &&& d@.name == name@
                },
                None => !has_by_name(self.model().files, parent_id@, name@),
            },
    {
        self.inner.tables.query_file_by_name(parent_id, name)
    }

    /// The entity at `(parent, name)`; a missing entry is an error.
    pub fn query_file_by_name(&self, parent_id: &str, name: &str) -> (r: OperationResult<
        DirEntity,
    >)
        requires
            self.wf(),
        ensures
            match r {
                Ok(d) => {
                    &&& self.model().files.contains_key(d@.id)
                    &&& d@ == self.model().files[d@.id]
                    &&& d@.parent == parent_id@
                    &&& d@.name == name@
                },
                Err(e) => !has_by_name(self.model().files, parent_id@, name@) && e.error_type
                    == OperationErrorType::FileDoesNotExist
            },
    {
        match self.inner.tables.query_file_by_name(parent_id, name) {
            Some(d) => Ok(d),
            None => Err(OperationError::file_does_not_exist()),
        }
    }

    /// Whether an entity sits at `(parent, name)`.
    pub fn file_exists_by_name(&self, parent_id: &str, name: &str) -> (r: bool)
        requires
            self.wf(),
        ensures
            r == has_by_name(self.model().files, parent_id@, name@),
    {
        self.inner.tables.file_exists_by_name(parent_id, name)
    }

    /// Whether any entity lists `id` as its parent.
    pub fn any_child_exists(&self, id: &str) -> (r: bool)
        requires
            self.wf(),
        ensures
            r == exists|k: Seq<char>|
                #[trigger] self.model().files.contains_key(k) && self.model().files[k].parent
                    == id@,
    {
        self.inner.tables.any_child_exists(id)
    }

    /// The entities whose parent is `parent_id`.
    pub fn list_files(&self, parent_id: &str) -> (r: Vec<DirEntity>)
        requires
            self.wf(),
        ensures
            forall|j: int|
                0 <= j < r@.len() ==> {
                    &&& (#[trigger] r@[j])@.parent == parent_id@
                    &&& self.model().files.contains_key(r@[j]@.id)
                    &&& self.model().files[r@[j]@.id] == r@[j]@
                },
            forall|k: Seq<char>|
                #[trigger] self.model().files.contains_key(k) && self.model().files[k].parent
                    == parent_id@ ==> exists|j: int| 0 <= j < r@.len() && (#[trigger] r@[j])@.id == k,
    {
        self.inner.tables.list_files(parent_id)
    }

    /// Touches an entity's times; absent ids are left alone.
    pub fn update_time(
        &mut self,
        id: &str,
        timestamp: Timespec,
        update_atime: bool,
        update_mtime: bool,
        update_ctime: bool,
    )
        requires
            old(self).wf(),
        ensures
            final(self).wf(),
            final(self).inner.id_generator == old(self).inner.id_generator,
            final(self).inner.saved == old(self).inner.saved,
            final(self).inner.tables.next_journal_seq == old(self).inner.tables.next_journal_seq,
            final(self).model() == old(self).model().with_files(
                after_update_time(
                    old(self).model().files,
                    id@,
                    timestamp,
                    update_atime,
                    update_mtime,
                    update_ctime,
                ),
            ),
    {
        let atime: Option<Timespec> = if update_atime {
            Some(timestamp)
        } else {
            None
        };
        let mtime: Option<Timespec> = if update_mtime {
            Some(timestamp)
        } else {
            None
        };
        let ctime: Option<Timespec> = if update_ctime {
            Some(timestamp)
        } else {
            None
        };
        self.inner.tables.set_attributes(id, None, None, None, None, atime, mtime, ctime);
        proof {
            if !old(self).model().files.contains_key(id@) {
                assert(self.model() =~= old(self).model().with_files(
                    after_update_time(
                        old(self).model().files,
                        id@,
                        timestamp,
                        update_atime,
                        update_mtime,
                        update_ctime,
                    ),
                ));
            }
        }
    }

    /// Puts the root directory in place if it is missing.
    pub fn create_default_root_directory(&mut self) -> (r: OperationResult<()>)
        requires
            old(self).wf(),
            old(self).inner.id_generator.ok(),
        ensures
            final(self).wf(),
            final(self).inner.id_generator == old(self).inner.id_generator,
            final(self).inner.saved == old(self).inner.saved,
            match r {
                Ok(_) => {
                    &&& old(self).model().files.contains_key("root"@) ==> final(self).model()
                        == old(self).model()
                    &&& !old(self).model().files.contains_key("root"@) ==> final(self).model()
                        == old(self).model().with_files(
                        old(self).model().files.insert(
                            "root"@,
                            new_entity_view(
                                "root"@,
                                Seq::<char>::empty(),
                                Seq::<char>::empty(),
                                FileType::Directory,
                                493,
                                0,
                                Timespec { sec: 0, nsec: 0 },
                            ),
                        ),
                    )
                },
                Err(e) => {
                    &&& final(self).model() == old(self).model()
                    &&& e.error_type == OperationErrorType::DatabaseError
                },
            },
    {
        self.inner.create_default_root_directory()
    }

    /// Inserts or replaces an entity row, as the store does.
    pub fn add_or_replace_dirent(&mut self, dirent: &DirEntity) -> (r: OperationResult<()>)
        requires
            old(self).wf(),
        ensures
            final(self).wf(),
            final(self).inner.id_generator == old(self).inner.id_generator,
            final(self).inner.saved == old(self).inner.saved,
            final(self).inner.tables.next_journal_seq == old(self).inner.tables.next_journal_seq,
            match r {
                Ok(_) => final(self).model() == old(self).model().with_files(
                    old(self).model().files.insert(
                        dirent@.id,
                        crate::store::stored_dirent_view(old(self).model().files, dirent@),
                    ),
                ),
                Err(e) => {
                    &&& final(self).model() == old(self).model()
                    &&& e.error_type == OperationErrorType::DatabaseError
                },
            },
    {
        self.inner.tables.add_or_replace_dirent(dirent)
    }

    /// Creates a file under a parent and touches the parent's times.
    pub fn create_file(
        &mut self,
        parent_id: &str,
        timestamp: Timespec,
        name: &str,
        file_type: FileType,
        mode: FileMode,
        dev: FileDev,
    ) -> (r: OperationResult<String>)
        requires
            old(self).wf(),
            old(self).inner.id_generator.ok(),
        ensures
            final(self).wf(),
            final(self).inner.saved == old(self).inner.saved,
            final(self).inner.tables.next_journal_seq == old(self).inner.tables.next_journal_seq,
            match r {
                Ok(rid) => {
                    &&& !old(self).model().files.contains_key(rid@)
                    &&& !has_by_name(
                        old(self).model().files,
                        spec_create_parent(rid@, parent_id@),
                        name@,
                    )
                    &&& T::gen_post(
                        old(self).inner.id_generator,
                        final(self).inner.id_generator,
                        rid@,
                    )
                    &&& final(self).model() == old(self).model().with_files(
                        after_update_time(
                            old(self).model().files.insert(
                                rid@,
                                new_entity_view(
                                    rid@,
                                    spec_create_parent(rid@, parent_id@),
                                    name@,
                                    file_type,
                                    mode,
                                    dev,
                                    timestamp,
                                ),
                            ),
                            parent_id@,
                            timestamp,
                            false,
                            true,
                            true,
                        ),
                    )
                },
                Err(e) => {
                    &&& final(self).model() == old(self).model()
                    &&& e.error_type == OperationErrorType::DatabaseError
                },
            },
    {
        let r = self.inner.create_file(parent_id, name, file_type, mode, dev, timestamp);
        match r {
            Ok(rid) => {
                self.update_time(parent_id, timestamp, false, true, true);
                Ok(rid)
            },
            Err(e) => Err(e),
        }
    }

    /// Creates a directory under a parent and touches the parent's times.
    pub fn create_directory(
        &mut self,
        parent_id: &str,
        timestamp: Timespec,
        name: &str,
        mode: FileMode,
    ) -> (r: OperationResult<String>)
        requires
            old(self).wf(),
            old(self).inner.id_generator.ok(),
        ensures
            final(self).wf(),
            final(self).inner.saved == old(self).inner.saved,
            final(self).inner.tables.next_journal_seq == old(self).inner.tables.next_journal_seq,
            match r {
                Ok(rid) => {
                    &&& !old(self).model().files.contains_key(rid@)
                    &&& !has_by_name(
                        old(self).model().files,
                        spec_create_parent(rid@, parent_id@),
                        name@,
                    )
                    &&& T::gen_post(
                        old(self).inner.id_generator,
                        final(self).inner.id_generator,
                        rid@,
                    )
                    &&& final(self).model() == old(self).model().with_files(
                        after_update_time(
                            old(self).model().files.insert(
                                rid@,
                                new_entity_view(
                                    rid@,
                                    spec_create_parent(rid@, parent_id@),
                                    name@,
                                    FileType::Directory,
                                    mode,
                                    0,
                                    timestamp,
                                ),
                            ),
                            parent_id@,
                            timestamp,
                            false,
                            true,
                            true,
                        ),
                    )
                },
                Err(e) => {
                    &&& final(self).model() == old(self).model()
                    &&& e.error_type == OperationErrorType::DatabaseError
                },
            },
    {
        let r = self.inner.create_directory(parent_id, name, mode, timestamp);
        match r {
            Ok(rid) => {
                self.update_time(parent_id, timestamp, false, true, true);
                Ok(rid)
            },
            Err(e) => Err(e),
        }
    }

    /// Creates a symlink under a parent: a file of symlink type whose
    /// content is the target path's UTF-8 bytes.
    pub fn create_symlink(
        &mut self,
        parent_id: &str,
        timestamp: Timespec,
        name: &str,
        link: &str,
    ) -> (r: OperationResult<String>)
        requires
            old(self).wf(),
            old(self).inner.id_generator.ok(),
            vstd::utf8::encode_utf8(link@).len() + BLOB_SIZE <= usize::MAX,
        ensures
            final(self).wf(),
            final(self).inner.saved == old(self).inner.saved,
            final(self).inner.tables.next_journal_seq == old(self).inner.tables.next_journal_seq,
            final(self).model().journal == old(self).model().journal,
            forall|k: Seq<char>|
                #[trigger] old(self).model().blobs.contains_key(k) ==> final(self).model().blobs.contains_key(k) && final(self).model().blobs[k] == old(self).model().blobs[k],
            match r {
                Ok(rid) => {
                    &&& !old(self).model().files.contains_key(rid@)
                    &&& T::gen_post(
                        old(self).inner.id_generator,
                        final(self).inner.id_generator,
                        rid@,
                    )
                    &&& final(self).model().files.contains_key(rid@)
                    &&& final(self).model().files[rid@].stat.file_type == FileType::Symlink
                    &&& final(self).model().files[rid@].name == name@
                    &&& final(self).model().files[rid@].parent == spec_create_parent(
                        rid@,
                        parent_id@,
                    )
                    &&& final(self).model().files[rid@].stat.mode == 511
                    &&& final(self).model().files[rid@].stat.size == vstd::utf8::encode_utf8(
                        link@,
                    ).len()
                    &&& (0 < vstd::utf8::encode_utf8(link@).len() <= BLOB_SIZE && !old(self).model().chunks.contains_key(rid@) ==> padded_chunk(
                        final(self).model(),
                        rid@,
                        0,
                    ) == zero_pad(vstd::utf8::encode_utf8(link@), BLOB_SIZE as int))
                },
                Err(e) => e.error_type == OperationErrorType::DatabaseError || e.error_type
                    == OperationErrorType::FileDoesNotExist,
            },
    {
        let rid = self.create_file(parent_id, timestamp, name, FileType::Symlink, 511, 0)?;
        let ghost m1 = self.model();
        let link_bytes = link.as_bytes();
        let r = self.write(rid.as_str(), timestamp, 0, link_bytes);
        match r {
            Ok(_) => {
                proof {
                    let bytes = vstd::utf8::encode_utf8(link@);
                    if 0 < bytes.len() <= BLOB_SIZE && !old(self).model().chunks.contains_key(
                        rid@,
                    ) {
                        let bb = BLOB_SIZE as int;
                        assert((0 + bytes.len() - 1) / bb == 0) by {
                            vstd::arithmetic::div_mod::lemma_fundamental_div_mod_converse(
                                bytes.len() - 1,
                                bb,
                                0,
                                bytes.len() - 1,
                            );
                        };
                        assert(0int / bb == 0) by {
                            vstd::arithmetic::div_mod::lemma_fundamental_div_mod_converse(
                                0,
                                bb,
                                0,
                                0,
                            );
                        };
                        assert(padded_chunk(self.model(), rid@, 0) == overlay(
                            write_base(m1, rid@, 0),
                            0,
                            bytes,
                        ));
                        assert(write_base(m1, rid@, 0) == zeros(bb)) by {
                            assert(chunk_count(m1, rid@) == 0);
                        };
                        assert(overlay(zeros(bb), 0, bytes) =~= zero_pad(bytes, bb));
                    }
                    assert(self.model().files[rid@].stat.size == bytes.len()) by {
                        if bytes.len() > 0 {
                            assert(max_int(0, bytes.len() as int) == bytes.len());
                        }
                    };
                }
                Ok(rid)
            },
            Err(e) => Err(e),
        }
    }

    /// Removes a file's entity row and touches the parent's times; the
    /// id must name an entity.
    pub fn remove_file(&mut self, id: &str, timestamp: Timespec) -> (r: OperationResult<()>)
        requires
            old(self).wf(),
        ensures
            final(self).wf(),
            final(self).inner.id_generator == old(self).inner.id_generator,
            final(self).inner.saved == old(self).inner.saved,
            final(self).inner.tables.next_journal_seq == old(self).inner.tables.next_journal_seq,
            match r {
                Ok(_) => {
                    &&& old(self).model().files.contains_key(id@)
                    &&& final(self).model() == old(self).model().with_files(
                        after_update_time(
                            old(self).model().files.remove(id@),
                            old(self).model().files[id@].parent,
                            timestamp,
                            false,
                            true,
                            true,
                        ),
                    )
                },
                Err(e) => {
                    &&& final(self).model() == old(self).model()
                    &&& !old(self).model().files.contains_key(id@)
                    &&& e.error_type == OperationErrorType::FileDoesNotExist
                },
            },
    {
        let dirent = self.query_file(id)?;
        self.inner.tables.remove_file(id);
        self.update_time(dirent.parent.as_str(), timestamp, false, true, true);
        Ok(())
    }

    /// Removes a directory's entity row and touches the parent's times;
    /// the id must name an entity.
    pub fn remove_directory(&mut self, id: &str, timestamp: Timespec) -> (r: OperationResult<()>)
        requires
            old(self).wf(),
        ensures
            final(self).wf(),
            final(self).inner.id_generator == old(self).inner.id_generator,
            final(self).inner.saved == old(self).inner.saved,
            final(self).inner.tables.next_journal_seq == old(self).inner.tables.next_journal_seq,
            match r {
                Ok(_) => {
                    &&& old(self).model().files.contains_key(id@)
                    &&& final(self).model() == old(self).model().with_files(
                        after_update_time(
                            old(self).model().files.remove(id@),
                            old(self).model().files[id@].parent,
                            timestamp,
                            false,
                            true,
                            true,
                        ),
                    )
                },
                Err(e) => {
                    &&& final(self).model() == old(self).model()
                    &&& !old(self).model().files.contains_key(id@)
                    &&& e.error_type == OperationErrorType::FileDoesNotExist
                },
            },
    {
        let dirent = self.query_file(id)?;
        self.inner.tables.remove_directory(id);
        self.update_time(dirent.parent.as_str(), timestamp, false, true, true);
        Ok(())
    }

    /// Rewrites an entity's id in its entity and chunk rows.
    pub fn change_id(&mut self, old_id: &str, new_id: &str) -> (r: OperationResult<()>)
        requires
            old(self).wf(),
        ensures
            final(self).wf(),
            final(self).inner.id_generator == old(self).inner.id_generator,
            final(self).inner.saved == old(self).inner.saved,
            final(self).inner.tables.next_journal_seq == old(self).inner.tables.next_journal_seq,
            match r {
                Ok(_) => {
                    &&& (!old(self).model().files.contains_key(new_id@) && !old(self).model().chunks.contains_key(new_id@)) || old_id@ == new_id@
                    &&& old(self).model().files.contains_key(old_id@) && old_id@ != new_id@
                        ==> final(self).model() == old(self).model().with_files(
                        old(self).model().files.remove(old_id@).insert(
                            new_id@,
                            DirEntityView { id: new_id@, ..old(self).model().files[old_id@] },
                        ),
                    ).with_chunks(
                        if old(self).model().chunks.contains_key(old_id@) {
                            old(self).model().chunks.remove(old_id@).insert(
                                new_id@,
                                old(self).model().chunks[old_id@],
                            )
                        } else {
                            old(self).model().chunks
                        },
                    )
                    &&& !old(self).model().files.contains_key(old_id@) || old_id@ == new_id@
                        ==> final(self).model() == old(self).model()
                },
                Err(e) => {
                    &&& final(self).model() == old(self).model()
                    &&& e.error_type == OperationErrorType::DatabaseError
                },
            },
    {
        self.inner.tables.change_id(old_id, new_id)
    }

    /// Moves an entity to a new parent and name, touching both parents'
    /// times and the entity's change time; the id must name an entity.
    pub fn rename(&mut self, id: &str, timestamp: Timespec, new_parent: &str, new_name: &str) -> (r:
        OperationResult<()>)
        requires
            old(self).wf(),
        ensures
            final(self).wf(),
            final(self).inner.id_generator == old(self).inner.id_generator,
            final(self).inner.saved == old(self).inner.saved,
            final(self).inner.tables.next_journal_seq == old(self).inner.tables.next_journal_seq,
            match r {
                Ok(_) => {
                    &&& old(self).model().files.contains_key(id@)
                    &&& final(self).model() == old(self).model().with_files(
                        after_update_time(
                            after_update_time(
                                after_update_time(
                                    old(self).model().files.insert(
                                        id@,
                                        DirEntityView {
                                            parent: new_parent@,
                                            name: new_name@,
                                            ..old(self).model().files[id@]
                                        },
                                    ),
                                    old(self).model().files[id@].parent,
                                    timestamp,
                                    false,
                                    true,
                                    true,
                                ),
                                new_parent@,
                                timestamp,
                                false,
                                true,
                                true,
                            ),
                            id@,
                            timestamp,
                            false,
                            false,
                            true,
                        ),
                    )
                },
                Err(e) => {
                    &&& final(self).model() == old(self).model()
                    &&& (e.error_type == OperationErrorType::FileDoesNotExist || e.error_type
                        == OperationErrorType::DatabaseError)
                },
            },
    {
        let dirent = self.query_file(id)?;
        let r = self.inner.tables.rename(id, new_parent, new_name);
        match r {
            Ok(_) => {
                self.update_time(dirent.parent.as_str(), timestamp, false, true, true);
                self.update_time(new_parent, timestamp, false, true, true);
                self.update_time(id, timestamp, false, false, true);
                Ok(())
            },
            Err(e) => Err(e),
        }
    }

    /// Brings a file's chunk list in line with a new logical size:
    /// growth appends chunks holding the canonical empty blob, shrinking
    /// drops chunks past the end and zeros the cut tail of the last one.
    /// The size field itself is recorded by the caller.
    pub fn resize_file(&mut self, id: &str, new_size: u64) -> (r: OperationResult<()>)
        requires
            old(self).wf(),
            new_size / (BLOB_SIZE as u64) < usize::MAX - 1,
        ensures
            final(self).wf(),
            final(self).inner.id_generator == old(self).inner.id_generator,
            final(self).inner.saved == old(self).inner.saved,
            final(self).inner.tables.next_journal_seq == old(self).inner.tables.next_journal_seq,
            final(self).model().files == old(self).model().files,
            final(self).model().journal == old(self).model().journal,
            forall|k: Seq<char>|
                #[trigger] old(self).model().blobs.contains_key(k) ==> final(self).model().blobs.contains_key(k) && final(self).model().blobs[k] == old(self).model().blobs[k],
            forall|f: Seq<char>|
                f != id@ ==> ((#[trigger] final(self).model().chunks.contains_key(f) <==> old(self).model().chunks.contains_key(f)) && (old(self).model().chunks.contains_key(f)
                    ==> final(self).model().chunks[f] == old(self).model().chunks[f])),
            match r {
                Ok(_) => {
                    &&& old(self).model().files.contains_key(id@)
                    &&& chunk_count(final(self).model(), id@) == spec_chunk_count_for(
                        new_size as int,
                    )
                    &&& forall|c: int|
                        chunk_count(old(self).model(), id@) <= c < spec_chunk_count_for(
                            new_size as int,
                        ) ==> #[trigger] padded_chunk(final(self).model(), id@, c) == zeros(
                            BLOB_SIZE as int,
                        )
                    &&& forall|c: int|
                        chunk_count(old(self).model(), id@) <= c < spec_chunk_count_for(
                            new_size as int,
                        ) ==> final(self).model().blobs.contains_key(
                            #[trigger] final(self).model().chunks[id@][c],
                        )
                    &&& forall|c: int|
                        0 <= c < min_int(
                            chunk_count(old(self).model(), id@),
                            spec_chunk_count_for(new_size as int),
                        ) && (c + 1) * (BLOB_SIZE as int) <= new_size as int
                            ==> #[trigger] final(self).model().chunks[id@][c] == old(self).model().chunks[id@][c]
                },
                Err(e) => e.error_type == OperationErrorType::FileDoesNotExist || e.error_type
                    == OperationErrorType::BlobDoesNotExist || e.error_type
                    == OperationErrorType::DatabaseError,
            },
    {
        let ghost m0 = self.model();
        let dirent = self.query_file(id)?;
        let old_size = dirent.stat.size;
        let cs = self.get_chunks(id);
        let oldn = cs.len();
        proof {
            if m0.chunks.contains_key(id@) {
                assert(cs@.map_values(|s: String| s@).len() == cs@.len());
            } else {
                assert(cs@.map_values(|s: String| s@).len() == cs@.len());
                assert(cs@.len() == 0);
            }
        }
        let new_count: usize = chunk_count_for(new_size);
        // Grow with canonical empty chunks.
        let mut c: usize = oldn;
        while c < new_count
            invariant
                self.wf(),
                self.model().files == m0.files,
                self.model().journal == m0.journal,
                self.inner.id_generator == old(self).inner.id_generator,
                self.inner.saved == old(self).inner.saved,
                self.inner.tables.next_journal_seq == old(self).inner.tables.next_journal_seq,
                oldn <= c,
                oldn < new_count ==> c <= new_count,
                oldn >= new_count ==> c == oldn,
                chunk_count(self.model(), id@) == if c > oldn {
                    c as int
                } else {
                    chunk_count(m0, id@)
                },
                chunk_count(m0, id@) == oldn,
                forall|k: Seq<char>|
                    #[trigger] m0.blobs.contains_key(k) ==> self.model().blobs.contains_key(k)
                        && self.model().blobs[k] == m0.blobs[k],
                forall|f: Seq<char>|
                    f != id@ ==> ((#[trigger] self.model().chunks.contains_key(f)
                        <==> m0.chunks.contains_key(f)) && (m0.chunks.contains_key(f)
                        ==> self.model().chunks[f] == m0.chunks[f])),
                forall|q: int|
                    oldn <= q < c ==> #[trigger] padded_chunk(self.model(), id@, q) == zeros(
                        BLOB_SIZE as int,
                    ),
                forall|q: int|
                    oldn <= q < c ==> self.model().blobs.contains_key(
                        #[trigger] self.model().chunks[id@][q],
                    ),
                forall|q: int|
                    0 <= q < oldn ==> #[trigger] self.model().chunks[id@][q] == m0.chunks[id@][q],
            decreases new_count - c,
        {
            let ghost mpre = self.model();
            let empty_slice: Vec<u8> = Vec::new();
            let bid = match self.add_blob(empty_slice.as_slice()) {
                Ok(v) => v,
                Err(e) => {
                    return Err(e);
                },
            };
            proof {
                assert(trim_zeros(empty_slice@) =~= Seq::<u8>::empty());
                crate::blob_id::lemma_trim_zeros_idempotent(empty_slice@);
            }
            self.inner.tables.replace_chunk(id, c, bid.as_str());
            proof {
                let mnew = self.model();
                assert forall|q: int|
                    oldn <= q < c + 1 implies #[trigger] padded_chunk(mnew, id@, q) == zeros(
                    BLOB_SIZE as int,
                ) by {
                    if q == c {
                        assert(mnew.blobs.contains_key(bid@));
                        assert(mnew.blobs[bid@] == Seq::<u8>::empty());
                        assert(mnew.chunks[id@][q] == bid@);
                        assert(zero_pad(Seq::<u8>::empty(), BLOB_SIZE as int) =~= zeros(
                            BLOB_SIZE as int,
                        ));
                    } else {
                        assert(padded_chunk(mpre, id@, q) == zeros(BLOB_SIZE as int));
                        assert(mnew.chunks[id@][q] == mpre.chunks[id@][q]);
                    }
                };
            }
            c = c + 1;
        }
        // Shrink past the new end.
        if new_count < oldn {
            self.inner.tables.truncate_chunks(id, new_count);
        }
        let ghost m1 = self.model();
        // Zero the cut tail of the last chunk.
        let last_chunk_size: usize = (new_size % (BLOB_SIZE as u64)) as usize;
        if last_chunk_size != 0 && new_size < old_size && new_count >= 1 && new_count <= oldn {
            let cs_now = self.get_chunks(id);
            if new_count <= cs_now.len() {
                let last_index = new_count - 1;
                let stored = match self.inner.tables.get_blob(cs_now[last_index].as_str()) {
                    Ok(v) => v,
                    Err(e) => {
                        return Err(e);
                    },
                };
                if last_chunk_size < stored.len() {
                    let cut = vec_subrange_u8(&stored, 0, last_chunk_size);
                    let bid = match self.add_blob(cut.as_slice()) {
                        Ok(v) => v,
                        Err(e) => {
                            return Err(e);
                        },
                    };
                    self.inner.tables.replace_chunk(id, last_index, bid.as_str());
                    proof {
                        lemma_ceil_chunks(new_size as int);
                        assert((last_index + 1) * (BLOB_SIZE as int) > new_size as int) by {
                            vstd::arithmetic::div_mod::lemma_fundamental_div_mod(
                                new_size as int,
                                BLOB_SIZE as int,
                            );
                        };
                        assert forall|q: int|
                            chunk_count(m0, id@) <= q < spec_chunk_count_for(new_size as int)
                                implies #[trigger] padded_chunk(self.model(), id@, q) == zeros(
                            BLOB_SIZE as int,
                        ) by {
                            assert(padded_chunk(m1, id@, q) == zeros(BLOB_SIZE as int));
                            assert(self.model().chunks[id@][q] == m1.chunks[id@][q]);
                        };
                    }
                }
            }
        }
        proof {
            lemma_ceil_chunks(new_size as int);
        }
        Ok(())
    }

    /// Applies a set-attributes change: a size change resizes the chunk
    /// list and counts as a content modification, so it also touches the
    /// modification time; any ownership or permission change touches the
    /// change time. The owner fields are accepted and ignored, as the
    /// schema keeps no per-entity owner.
    pub fn set_attributes(
        &mut self,
        id: &str,
        timestamp: Timespec,
        mode: Option<FileMode>,
        uid: Option<u32>,
        gid: Option<u32>,
        size: Option<u64>,
        atim: Option<Timespec>,
        mtim: Option<Timespec>,
    ) -> (r: OperationResult<()>)
        requires
            old(self).wf(),
            size is Some ==> size->0 / (BLOB_SIZE as u64) < usize::MAX - 1,
        ensures
            final(self).wf(),
            final(self).inner.id_generator == old(self).inner.id_generator,
            final(self).inner.saved == old(self).inner.saved,
            final(self).inner.tables.next_journal_seq == old(self).inner.tables.next_journal_seq,
            final(self).model().journal == old(self).model().journal,
            forall|k: Seq<char>|
                #[trigger] old(self).model().blobs.contains_key(k) ==> final(self).model().blobs.contains_key(k) && final(self).model().blobs[k] == old(self).model().blobs[k],
            match r {
                Ok(_) => {
                    &&& old(self).model().files.contains_key(id@)
                    &&& final(self).model().files == old(self).model().files.insert(
                        id@,
                        apply_attrs_view(
                            old(self).model().files[id@],
                            mode,
                            size,
                            atim,
                            spec_setattr_mtim(mtim, size, timestamp),
                            spec_setattr_ctim(mode, uid, gid, size, timestamp),
                        ),
                    )
                    &&& size is Some ==> chunk_count(final(self).model(), id@)
                        == spec_chunk_count_for(size->0 as int)
                    &&& size is Some ==> forall|c: int|
                        chunk_count(old(self).model(), id@) <= c < spec_chunk_count_for(
                            size->0 as int,
                        ) ==> #[trigger] padded_chunk(final(self).model(), id@, c) == zeros(
                            BLOB_SIZE as int,
                        )
                    &&& size is None ==> final(self).model().chunks == old(self).model().chunks
                },
                Err(e) => e.error_type == OperationErrorType::FileDoesNotExist || e.error_type
                    == OperationErrorType::BlobDoesNotExist || e.error_type
                    == OperationErrorType::DatabaseError,
            },
    {
        let ghost m0 = self.model();
        let mut mtim_used = mtim;
        match size {
            Some(size_val) => {
                self.resize_file(id, size_val)?;
                mtim_used = Some(timestamp);
            },
            None => {},
        }
        let ghost m1 = self.model();
        let ctim: Option<Timespec> = if mode.is_some() || uid.is_some() || gid.is_some()
            || size.is_some() {
            Some(timestamp)
        } else {
            None
        };
        if !self.inner.tables.file_exists(id) {
            return Err(OperationError::file_does_not_exist());
        }
        self.inner.tables.set_attributes(id, mode, uid, gid, size, atim, mtim_used, ctim);
        proof {
            if size is Some {
                assert(self.model().files == m0.files.insert(
                    id@,
                    apply_attrs_view(
                        m0.files[id@],
                        mode,
                        size,
                        atim,
                        spec_setattr_mtim(mtim, size, timestamp),
                        spec_setattr_ctim(mode, uid, gid, size, timestamp),
                    ),
                ));
                assert(self.model().chunks == m1.chunks && self.model().blobs == m1.blobs);
                assert forall|c: int|
                    chunk_count(m0, id@) <= c < spec_chunk_count_for(size->0 as int) implies
                    #[trigger] padded_chunk(self.model(), id@, c) == zeros(BLOB_SIZE as int) by {
                    assert(padded_chunk(m1, id@, c) == zeros(BLOB_SIZE as int));
                };
            }
        }
        Ok(())
    }

    /// Writes `data` at byte `offset` of a file: every touched chunk is
    /// rewritten with the bytes laid over its old logical content, a
    /// hole left below the write is filled with canonical empty chunks,
    /// the recorded size grows to cover the write, and the modification
    /// and change times are touched. An empty write only touches the
    /// times.
    #[verifier::rlimit(100)]
    pub fn write(&mut self, id: &str, timestamp: Timespec, offset: usize, data: &[u8]) -> (r:
        OperationResult<()>)
        requires
            old(self).wf(),
            offset + data@.len() + BLOB_SIZE <= usize::MAX,
        ensures
            final(self).wf(),
            final(self).inner.id_generator == old(self).inner.id_generator,
            final(self).inner.saved == old(self).inner.saved,
            final(self).inner.tables.next_journal_seq == old(self).inner.tables.next_journal_seq,
            final(self).model().journal == old(self).model().journal,
            forall|k: Seq<char>|
                #[trigger] old(self).model().blobs.contains_key(k) ==> final(self).model().blobs.contains_key(k) && final(self).model().blobs[k] == old(self).model().blobs[k],
            forall|f: Seq<char>|
                f != id@ ==> ((#[trigger] final(self).model().chunks.contains_key(f) <==> old(self).model().chunks.contains_key(f)) && (old(self).model().chunks.contains_key(f)
                    ==> final(self).model().chunks[f] == old(self).model().chunks[f])),
            match r {
                Ok(_) => {
                    &&& old(self).model().files.contains_key(id@)
                    &&& data@.len() == 0 ==> final(self).model() == old(self).model().with_files(
                        after_update_time(
                            old(self).model().files,
                            id@,
                            timestamp,
                            false,
                            true,
                            true,
                        ),
                    )
                    &&& data@.len() > 0 ==> {
                        let b = BLOB_SIZE as int;
                        let first = offset as int / b;
                        let last = (offset + data@.len() - 1) / b;
                        let oldn = chunk_count(old(self).model(), id@);
                        &&& final(self).model().files == after_update_time(
                            old(self).model().files.insert(
                                id@,
                                apply_attrs_view(
                                    old(self).model().files[id@],
                                    None,
                                    Some(
                                        max_int(
                                            old(self).model().files[id@].stat.size as int,
                                            offset + data@.len(),
                                        ) as u64,
                                    ),
                                    None,
                                    None,
                                    None,
                                ),
                            ),
                            id@,
                            timestamp,
                            false,
                            true,
                            true,
                        )
                        &&& chunk_count(final(self).model(), id@) == max_int(oldn, last + 1)
                        &&& forall|c: int|
                            first <= c <= last ==> #[trigger] padded_chunk(
                                final(self).model(),
                                id@,
                                c,
                            ) == overlay(
                                write_base(old(self).model(), id@, c),
                                offset - c * b,
                                data@,
                            )
                        &&& forall|c: int|
                            oldn <= c < first ==> #[trigger] padded_chunk(
                                final(self).model(),
                                id@,
                                c,
                            ) == zeros(b)
                        &&& forall|c: int|
                            first <= c <= last ==> final(self).model().blobs.contains_key(
                                #[trigger] final(self).model().chunks[id@][c],
                            )
                        &&& forall|c: int|
                            oldn <= c < first ==> final(self).model().blobs.contains_key(
                                #[trigger] final(self).model().chunks[id@][c],
                            )
                        &&& forall|c: int|
                            0 <= c < oldn && !(first <= c <= last)
                                ==> #[trigger] final(self).model().chunks[id@][c] == old(self).model().chunks[id@][c]
                    }
                },
                Err(e) => {
                    &&& e.error_type == OperationErrorType::FileDoesNotExist || e.error_type
                        == OperationErrorType::DatabaseError
                    &&& e.error_type == OperationErrorType::FileDoesNotExist ==> final(self).model() == old(self).model() && !old(self).model().files.contains_key(id@)
                },
            },
    {
        let ghost m0 = self.model();
        let ghost b = BLOB_SIZE as int;
        let dirent = self.query_file(id)?;
        if data.len() == 0 {
            self.update_time(id, timestamp, false, true, true);
            return Ok(());
        }
        let cs = self.get_chunks(id);
        let oldn = cs.len();
        proof {
            assert(cs@.map_values(|s: String| s@).len() == cs@.len());
            if !m0.chunks.contains_key(id@) {
                assert(cs@.len() == 0);
            }
        }
        let first = offset / BLOB_SIZE;
        let last = (offset + data.len() - 1) / BLOB_SIZE;
        proof {
            vstd::arithmetic::div_mod::lemma_fundamental_div_mod(offset as int, b);
            vstd::arithmetic::div_mod::lemma_mod_bound(offset as int, b);
            vstd::arithmetic::div_mod::lemma_fundamental_div_mod(offset + data@.len() - 1, b);
            vstd::arithmetic::div_mod::lemma_mod_bound(offset + data@.len() - 1, b);
            vstd::arithmetic::div_mod::lemma_div_is_ordered(
                offset as int,
                offset + data@.len() - 1,
                b,
            );
        }
        // Capture the old logical content of every touched chunk before
        // any mutation.
        let mut bases: Vec<Vec<u8>> = Vec::new();
        let mut ci: usize = first;
        while ci <= last
            invariant
                self == old(self),
                self.wf(),
                m0 == self.model(),
                first <= ci <= last + 1,
                oldn == cs@.len(),
                chunk_count(m0, id@) == oldn,
                m0.chunks.contains_key(id@) ==> cs@.map_values(|s: String| s@)
                    == m0.chunks[id@],
                bases@.len() == ci - first,
                forall|j: int|
                    0 <= j < bases@.len() ==> (#[trigger] bases@[j])@ == write_base(
                        m0,
                        id@,
                        first + j,
                    ) && bases@[j]@.len() == BLOB_SIZE,
            decreases last + 1 - ci,
        {
            let mut base: Vec<u8> = Vec::new();
            if ci < oldn {
                match self.inner.tables.get_blob(cs[ci].as_str()) {
                    Ok(blob) => {
                        push_padded(&mut base, &blob);
                        proof {
                            assert(cs@[ci as int]@ == m0.chunks[id@][ci as int]);
                            if blob@.len() <= BLOB_SIZE {
                                assert(base@ =~= zero_pad(blob@, b));
                            } else {
                                assert(base@ =~= zeros(b));
                            }
                            assert(base@ == write_base(m0, id@, ci as int));
                        }
                    },
                    Err(_) => {
                        let empty_blob: Vec<u8> = Vec::new();
                        push_padded(&mut base, &empty_blob);
                        proof {
                            assert(cs@[ci as int]@ == m0.chunks[id@][ci as int]);
                            assert(base@ =~= zeros(b));
                            assert(zero_pad(Seq::<u8>::empty(), b) =~= zeros(b));
                            assert(base@ == write_base(m0, id@, ci as int));
                        }
                    },
                }
            } else {
                let empty_blob: Vec<u8> = Vec::new();
                push_padded(&mut base, &empty_blob);
                proof {
                    assert(base@ =~= zeros(b));
                    assert(zero_pad(Seq::<u8>::empty(), b) =~= zeros(b));
                    assert(base@ == write_base(m0, id@, ci as int));
                }
            }
            bases.push(base);
            ci = ci + 1;
        }
        // Fill any hole below the write with canonical empty chunks.
        let mut c: usize = oldn;
        while c < first
            invariant
                self.wf(),
                self.model().files == m0.files,
                self.model().journal == m0.journal,
                self.inner.id_generator == old(self).inner.id_generator,
                self.inner.saved == old(self).inner.saved,
                self.inner.tables.next_journal_seq == old(self).inner.tables.next_journal_seq,
                oldn <= c,
                oldn < first ==> c <= first,
                oldn >= first ==> c == oldn,
                chunk_count(m0, id@) == oldn,
                chunk_count(self.model(), id@) == max_int(oldn as int, c as int),
                forall|k: Seq<char>|
                    #[trigger] m0.blobs.contains_key(k) ==> self.model().blobs.contains_key(k)
                        && self.model().blobs[k] == m0.blobs[k],
                forall|f: Seq<char>|
                    f != id@ ==> ((#[trigger] self.model().chunks.contains_key(f)
                        <==> m0.chunks.contains_key(f)) && (m0.chunks.contains_key(f)
                        ==> self.model().chunks[f] == m0.chunks[f])),
                forall|q: int|
                    oldn <= q < c ==> #[trigger] padded_chunk(self.model(), id@, q) == zeros(b),
                forall|q: int|
                    oldn <= q < c ==> self.model().blobs.contains_key(
                        #[trigger] self.model().chunks[id@][q],
                    ),
                forall|q: int|
                    0 <= q < oldn ==> #[trigger] self.model().chunks[id@][q] == m0.chunks[id@][q],
            decreases first - c,
        {
            let ghost mpre = self.model();
            let empty_slice: Vec<u8> = Vec::new();
            let bid = match self.add_blob(empty_slice.as_slice()) {
                Ok(v) => v,
                Err(e) => {
                    return Err(e);
                },
            };
            proof {
                assert(trim_zeros(empty_slice@) =~= Seq::<u8>::empty());
            }
            self.inner.tables.replace_chunk(id, c, bid.as_str());
            proof {
                let mnew = self.model();
                assert forall|q: int|
                    oldn <= q < c + 1 implies #[trigger] padded_chunk(mnew, id@, q) == zeros(
                    b,
                ) by {
                    if q == c {
                        assert(mnew.blobs[bid@] == Seq::<u8>::empty());
                        assert(mnew.chunks[id@][q] == bid@);
                        assert(zero_pad(Seq::<u8>::empty(), b) =~= zeros(b));
                    } else {
                        assert(padded_chunk(mpre, id@, q) == zeros(b));
                        assert(mnew.chunks[id@][q] == mpre.chunks[id@][q]);
                    }
                };
            }
            c = c + 1;
        }
        // Rewrite every chunk the write touches.
        let mut c2: usize = first;
        while c2 <= last
            invariant
                self.wf(),
                self.model().files == m0.files,
                self.model().journal == m0.journal,
                self.inner.id_generator == old(self).inner.id_generator,
                self.inner.saved == old(self).inner.saved,
                self.inner.tables.next_journal_seq == old(self).inner.tables.next_journal_seq,
                first <= c2 <= last + 1,
                first == offset as int / b,
                last == (offset + data@.len() - 1) / b,
                data@.len() > 0,
                offset + data@.len() + BLOB_SIZE <= usize::MAX,
                first * b <= offset < first * b + b,
                last * b <= offset + data@.len() - 1 < last * b + b,
                chunk_count(m0, id@) == oldn,
                oldn == cs@.len(),
                m0.chunks.contains_key(id@) ==> cs@.map_values(|s: String| s@)
                    == m0.chunks[id@],
                chunk_count(self.model(), id@) == max_int(
                    max_int(oldn as int, first as int),
                    c2 as int,
                ),
                bases@.len() == last + 1 - first,
                forall|j: int|
                    0 <= j < bases@.len() ==> (#[trigger] bases@[j])@ == write_base(
                        m0,
                        id@,
                        first + j,
                    ) && bases@[j]@.len() == BLOB_SIZE,
                forall|k: Seq<char>|
                    #[trigger] m0.blobs.contains_key(k) ==> self.model().blobs.contains_key(k)
                        && self.model().blobs[k] == m0.blobs[k],
                forall|f: Seq<char>|
                    f != id@ ==> ((#[trigger] self.model().chunks.contains_key(f)
                        <==> m0.chunks.contains_key(f)) && (m0.chunks.contains_key(f)
                        ==> self.model().chunks[f] == m0.chunks[f])),
                forall|q: int|
                    oldn <= q < first ==> #[trigger] padded_chunk(self.model(), id@, q) == zeros(
                        b,
                    ),
                forall|q: int|
                    oldn <= q < first ==> self.model().blobs.contains_key(
                        #[trigger] self.model().chunks[id@][q],
                    ),
                forall|q: int|
                    first <= q < c2 ==> #[trigger] padded_chunk(self.model(), id@, q) == overlay(
                        write_base(m0, id@, q),
                        offset - q * b,
                        data@,
                    ),
                forall|q: int|
                    first <= q < c2 ==> self.model().blobs.contains_key(
                        #[trigger] self.model().chunks[id@][q],
                    ),
                forall|q: int|
                    0 <= q < oldn && !(first <= q < c2)
                        ==> #[trigger] self.model().chunks[id@][q] == m0.chunks[id@][q],
            decreases last + 1 - c2,
        {
            let ghost mpre = self.model();
            proof {
                assert(c2 * b <= offset + data@.len() - 1) by (nonlinear_arith)
                    requires
                        c2 <= last,
                        last * b <= offset + data@.len() - 1,
                        b > 0,
                ;
            }
            // The old logical content of this chunk, captured above.
            let base = &bases[c2 - first];
            proof {
                assert(base@ == write_base(m0, id@, c2 as int));
            }
            let content = overlay_chunk(base, c2, offset, data);
            let bid = match self.add_blob(content.as_slice()) {
                Ok(v) => v,
                Err(e) => {
                    return Err(e);
                },
            };
            self.inner.tables.replace_chunk(id, c2, bid.as_str());
            proof {
                let mnew = self.model();
                crate::blob_id::lemma_pad_trim(content@, b);
                assert(trim_zeros(content@).len() <= b) by {
                    crate::blob_id::lemma_trim_zeros_no_trailing_zero(content@);
                };
                assert forall|q: int|
                    first <= q < c2 + 1 implies #[trigger] padded_chunk(mnew, id@, q) == overlay(
                    write_base(m0, id@, q),
                    offset - q * b,
                    data@,
                ) by {
                    if q == c2 {
                        let cur = if mpre.chunks.contains_key(id@) {
                            mpre.chunks[id@]
                        } else {
                            Seq::<Seq<char>>::empty()
                        };
                        let lst = crate::store::chunk_list_after_replace(
                            mpre.chunks,
                            id@,
                            c2 as int,
                            bid@,
                        );
                        assert(mnew.chunks[id@] == lst);
                        assert(c2 as int >= cur.len() ==> c2 as int == cur.len());
                        assert(lst[c2 as int] == bid@);
                        assert(c2 < lst.len());
                        assert(mnew.blobs.contains_key(bid@));
                        assert(mnew.blobs[bid@] == trim_zeros(content@));
                        assert(padded_chunk(mnew, id@, q) == zero_pad(trim_zeros(content@), b));
                        assert(content@ == overlay(
                            write_base(m0, id@, q),
                            offset - q * b,
                            data@,
                        ));
                    } else {
                        assert(padded_chunk(mpre, id@, q) == overlay(
                            write_base(m0, id@, q),
                            offset - q * b,
                            data@,
                        ));
                        assert(mnew.chunks[id@][q] == mpre.chunks[id@][q]);
                        let k = mpre.chunks[id@][q];
                        assert(mpre.blobs.contains_key(k));
                        if k == bid@ {
                            assert(mpre.blobs[k] == trim_zeros(content@));
                        }
                        assert(mnew.blobs.contains_key(k) && mnew.blobs[k] == mpre.blobs[k]);
                    }
                };
                assert forall|q: int|
                    oldn <= q < first implies #[trigger] padded_chunk(mnew, id@, q) == zeros(
                    b,
                ) by {
                    assert(padded_chunk(mpre, id@, q) == zeros(b));
                    assert(mnew.chunks[id@][q] == mpre.chunks[id@][q]);
                    let k = mpre.chunks[id@][q];
                    assert(mpre.blobs.contains_key(k));
                    if k == bid@ {
                        assert(mpre.blobs[k] == trim_zeros(content@));
                    }
                    assert(mnew.blobs.contains_key(k) && mnew.blobs[k] == mpre.blobs[k]);
                };
            }
            c2 = c2 + 1;
        }
        // Record the grown size and touch the times.
        let ghost m2 = self.model();
        let end_off = offset + data.len();
        let new_size: u64 = if dirent.stat.size > end_off as u64 {
            dirent.stat.size
        } else {
            end_off as u64
        };
        self.inner.tables.resize_file(id, new_size);
        self.update_time(id, timestamp, false, true, true);
        proof {
            assert(self.model().chunks == m2.chunks && self.model().blobs == m2.blobs);
            assert(chunk_count(self.model(), id@) == max_int(
                chunk_count(m0, id@),
                last as int + 1,
            )) by {
                assert(first <= last);
                assert(chunk_count(self.model(), id@) == chunk_count(m2, id@));
            };
            assert forall|c: int|
                first <= c <= last implies #[trigger] padded_chunk(self.model(), id@, c)
                == overlay(write_base(m0, id@, c), offset - c * b, data@) by {
                assert(padded_chunk(m2, id@, c) == overlay(
                    write_base(m0, id@, c),
                    offset - c * b,
                    data@,
                ));
            };
            assert forall|c: int|
                chunk_count(m0, id@) <= c < first implies #[trigger] padded_chunk(
                self.model(),
                id@,
                c,
            ) == zeros(b) by {
                assert(padded_chunk(m2, id@, c) == zeros(b));
            };
        }
        Ok(())
    }

    /// Stores content under its digest, as the store does.
    pub fn add_blob(&mut self, data: &[u8]) -> (r: OperationResult<String>)
        requires
            old(self).wf(),
        ensures
            final(self).wf(),
            final(self).inner.id_generator == old(self).inner.id_generator,
            final(self).inner.saved == old(self).inner.saved,
            final(self).inner.tables.next_journal_seq == old(self).inner.tables.next_journal_seq,
            match r {
                Ok(bid) => {
                    &&& bid@ == blob_id_of(data@)
                    &&& final(self).model() == old(self).model().with_blobs(
                        old(self).model().blobs.insert(blob_id_of(data@), trim_zeros(data@)),
                    )
                },
                Err(e) => {
                    &&& final(self).model() == old(self).model()
                    &&& e.error_type == OperationErrorType::DatabaseError
                },
            },
            r is Ok <==> (old(self).model().blobs.contains_key(blob_id_of(data@)) ==> old(self).model().blobs[blob_id_of(data@)] == trim_zeros(data@)),
    {
        self.inner.tables.add_blob(data)
    }

    /// The ordered blob ids of a file's chunks.
    pub fn get_chunks(&self, id: &str) -> (r: Vec<String>)
        requires
            self.wf(),
        ensures
            self.model().chunks.contains_key(id@) ==> r@.map_values(|s: String| s@)
                == self.model().chunks[id@],
            !self.model().chunks.contains_key(id@) ==> r@.map_values(|s: String| s@) == Seq::<
                Seq<char>,
            >::empty(),
    {
        self.inner.tables.get_chunks(id)
    }

    /// The requested blob ids the store lacks: each missing id once.
    pub fn get_missing_blobs(&self, ids: &Vec<String>) -> (r: Vec<String>)
        requires
            self.wf(),
        ensures
            forall|p: int, q: int| 0 <= p < q < r@.len() ==> (#[trigger] r@[p])@ != (
                #[trigger] r@[q])@,
            forall|j: int|
                0 <= j < r@.len() ==> !self.model().blobs.contains_key((#[trigger] r@[j])@)
                    && ids@.map_values(|s: String| s@).contains(r@[j]@),
            forall|j: int|
                0 <= j < ids@.len() && !self.model().blobs.contains_key((#[trigger] ids@[j])@)
                    ==> r@.map_values(|s: String| s@).contains(ids@[j]@),
    {
        self.inner.tables.get_missing_blobs(ids)
    }

    /// The blob ids a read of `[offset, offset + size)` would need that
    /// the store lacks.
    pub fn get_missing_blobs_for_read(&self, id: &str, offset: usize, size: u32) -> (r: Vec<
        String,
    >)
        requires
            self.wf(),
            offset + size <= usize::MAX,
        ensures
            forall|p: int, q: int| 0 <= p < q < r@.len() ==> (#[trigger] r@[p])@ != (
                #[trigger] r@[q])@,
            forall|j: int|
                0 <= j < r@.len() ==> !self.model().blobs.contains_key((#[trigger] r@[j])@)
                    && covered_chunks(self.model(), id@, offset as int, size as int).contains(
                    r@[j]@,
                ),
            forall|j: int|
                0 <= j < covered_chunks(self.model(), id@, offset as int, size as int).len()
                    && !self.model().blobs.contains_key(
                    #[trigger] covered_chunks(self.model(), id@, offset as int, size as int)[j],
                ) ==> r@.map_values(|s: String| s@).contains(
                    covered_chunks(self.model(), id@, offset as int, size as int)[j],
                ),
    {
        let cs = self.get_chunks(id);
        let n = cs.len();
        let start = offset / BLOB_SIZE;
        if start >= n {
            let r: Vec<String> = Vec::new();
            proof {
                assert(covered_chunks(self.model(), id@, offset as int, size as int) =~= Seq::<
                    Seq<char>,
                >::empty());
            }
            return r;
        }
        let end_raw = (offset + size as usize) / BLOB_SIZE + 1;
        let end = if end_raw <= n {
            end_raw
        } else {
            n
        };
        let mut covered: Vec<String> = Vec::new();
        let mut c: usize = start;
        proof {
            assert(covered@.map_values(|s: String| s@) =~= cs@.map_values(
                |s: String| s@,
            ).subrange(start as int, start as int));
        }
        while c < end
            invariant
                start <= c <= end,
                end <= cs@.len(),
                covered@.map_values(|s: String| s@) == cs@.map_values(|s: String| s@).subrange(
                    start as int,
                    c as int,
                ),
            decreases end - c,
        {
            covered.push(crate::clone_string(&cs[c]));
            proof {
                assert(covered@.map_values(|s: String| s@) =~= cs@.map_values(
                    |s: String| s@,
                ).subrange(start as int, c + 1));
            }
            c = c + 1;
        }
        let r = self.get_missing_blobs(&covered);
        proof {
            assert(covered@.map_values(|s: String| s@) =~= covered_chunks(
                self.model(),
                id@,
                offset as int,
                size as int,
            ));
        }
        r
    }

    /// The bytes `[offset, offset + size)` of a file, assembled from its
    /// chunks' logical content and short where the chunks run out. Fails
    /// iff a covered chunk's blob is absent from the store.
    pub fn read(&self, id: &str, offset: usize, size: u32) -> (r: OperationResult<Vec<u8>>)
        requires
            self.wf(),
            offset + size <= usize::MAX,
        ensures
            match r {
                Ok(v) => {
                    &&& v@ == read_result(self.model(), id@, offset as int, size as int)
                    &&& !(exists|c: int|
                        covered_range(self.model(), id@, offset as int, size as int, c)
                            && !self.model().blobs.contains_key(
                            #[trigger] self.model().chunks[id@][c],
                        ))
                },
                Err(e) => {
                    &&& e.error_type == OperationErrorType::BlobDoesNotExist
                    &&& exists|c: int|
                        covered_range(self.model(), id@, offset as int, size as int, c)
                            && !self.model().blobs.contains_key(
                            #[trigger] self.model().chunks[id@][c],
                        )
                },
            },
    {
        let ghost m = self.model();
        let ghost b = BLOB_SIZE as int;
        let cs = self.get_chunks(id);
        let n = cs.len();
        let start = offset / BLOB_SIZE;
        proof {
            vstd::arithmetic::div_mod::lemma_fundamental_div_mod(offset as int, b);
            vstd::arithmetic::div_mod::lemma_mod_bound(offset as int, b);
        }
        if start >= n {
            proof {
                assert forall|c: int|
                    covered_range(m, id@, offset as int, size as int, c) implies false by {}
            }
            return Ok(Vec::new());
        }
        let end_raw = (offset + size as usize) / BLOB_SIZE + 1;
        let end = if end_raw <= n {
            end_raw
        } else {
            n
        };
        let local = offset % BLOB_SIZE;
        let mut buf: Vec<u8> = Vec::new();
        let mut c: usize = start;
        proof {
            assert(buf@ =~= span(m, id@, start as int, start as int));
            if !m.chunks.contains_key(id@) {
                assert(cs@.map_values(|s: String| s@).len() == 0);
                assert(false);
            }
        }
        while c < end
            invariant
                self.wf(),
                m == self.model(),
                start <= c <= end,
                end <= cs@.len(),
                m.chunks.contains_key(id@),
                cs@.map_values(|s: String| s@) == m.chunks[id@],
                buf@ == span(m, id@, start as int, c as int),
                forall|q: int|
                    start <= q < c ==> m.blobs.contains_key(#[trigger] m.chunks[id@][q]),
            decreases end - c,
        {
            let blob = match self.inner.tables.get_blob(cs[c].as_str()) {
                Ok(v) => v,
                Err(e) => {
                    proof {
                        assert(cs@[c as int]@ == m.chunks[id@][c as int]);
                        assert(!m.blobs.contains_key(m.chunks[id@][c as int]));
                        assert(covered_range(m, id@, offset as int, size as int, c as int));
                    }
                    return Err(e);
                },
            };
            push_padded(&mut buf, &blob);
            proof {
                lemma_span_snoc(m, id@, start as int, c as int);
                assert(cs@[c as int]@ == m.chunks[id@][c as int]);
                assert(padded_chunk(m, id@, c as int) == if blob@.len() <= BLOB_SIZE {
                    zero_pad(blob@, b)
                } else {
                    zeros(b)
                });
            }
            c = c + 1;
        }
        proof {
            lemma_span_len(m, id@, start as int, end as int);
            assert(end - start >= 1);
            assert((end - start) * b >= b) by (nonlinear_arith)
                requires
                    end - start >= 1,
                    b == BLOB_SIZE as int,
            ;
        }
        let avail = buf.len() - local;
        let want = size as usize;
        let rlen = if want <= avail {
            want
        } else {
            avail
        };
        let r = vec_subrange_u8(&buf, local, local + rlen);
        proof {
            assert(local as int == offset as int - (start as int) * b);
            assert(r@ == read_result(m, id@, offset as int, size as int));
            assert forall|q: int|
                covered_range(m, id@, offset as int, size as int, q) implies m.blobs.contains_key(
                #[trigger] m.chunks[id@][q],
            ) by {}
        }
        Ok(r)
    }
}

/// The chunk ids a read of `[offset, offset + size)` covers.
pub open spec fn covered_chunks(m: StoreModel, id: Seq<char>, offset: int, size: int) -> Seq<
    Seq<char>,
> {
    let b = BLOB_SIZE as int;
    let n = chunk_count(m, id);
    let start = offset / b;
    let end = min_int(n, (offset + size) / b + 1);
    if start >= n {
        Seq::<Seq<char>>::empty()
    } else {
        m.chunks[id].subrange(start, end)
    }
}

/// Whether chunk `c` lies in the range a read of `[offset, offset +
/// size)` covers.
pub open spec fn covered_range(
    m: StoreModel,
    id: Seq<char>,
    offset: int,
    size: int,
    c: int,
) -> bool {
    let b = BLOB_SIZE as int;
    let n = chunk_count(m, id);
    offset / b <= c < min_int(n, (offset + size) / b + 1) && m.chunks.contains_key(id)
}

/// Appends a blob's logical chunk content: the bytes zero-padded to the
/// chunk width, or all zeros for an overlong blob.
fn push_padded(buf: &mut Vec<u8>, blob: &Vec<u8>)
    ensures
        blob@.len() <= BLOB_SIZE ==> final(buf)@ == old(buf)@ + zero_pad(
            blob@,
            BLOB_SIZE as int,
        ),
        blob@.len() > BLOB_SIZE ==> final(buf)@ == old(buf)@ + zeros(BLOB_SIZE as int),
{
    if blob.len() <= BLOB_SIZE {
        let mut i: usize = 0;
        while i < blob.len()
            invariant
                i <= blob@.len(),
                buf@ == old(buf)@ + blob@.subrange(0, i as int),
            decreases blob@.len() - i,
        {
            buf.push(blob[i]);
            proof {
                assert(buf@ =~= old(buf)@ + blob@.subrange(0, i + 1));
            }
            i = i + 1;
        }
        let mut k: usize = blob.len();
        proof {
            assert(blob@.subrange(0, blob@.len() as int) =~= blob@);
        }
        while k < BLOB_SIZE
            invariant
                blob@.len() <= k <= BLOB_SIZE,
                buf@ == old(buf)@ + blob@ + zeros(k - blob@.len()),
            decreases BLOB_SIZE - k,
        {
            buf.push(0);
            proof {
                assert(buf@ =~= old(buf)@ + blob@ + zeros(k + 1 - blob@.len()));
            }
            k = k + 1;
        }
        proof {
            assert(old(buf)@ + blob@ + zeros(BLOB_SIZE - blob@.len()) =~= old(buf)@ + zero_pad(
                blob@,
                BLOB_SIZE as int,
            ));
        }
    } else {
        let mut k: usize = 0;
        proof {
            assert(buf@ =~= old(buf)@ + zeros(0));
        }
        while k < BLOB_SIZE
            invariant
                k <= BLOB_SIZE,
                buf@ == old(buf)@ + zeros(k as int),
            decreases BLOB_SIZE - k,
        {
            buf.push(0);
            proof {
                assert(buf@ =~= old(buf)@ + zeros(k + 1));
            }
            k = k + 1;
        }
    }
}

/// A chunk's new content: the write's bytes laid over the old content
/// at the positions the chunk covers.
fn overlay_chunk(base: &Vec<u8>, chunk_index: usize, offset: usize, data: &[u8]) -> (r: Vec<u8>)
    requires
        base@.len() == BLOB_SIZE,
        chunk_index * BLOB_SIZE + BLOB_SIZE <= usize::MAX,
        offset + data@.len() <= usize::MAX,
    ensures
        r@ == overlay(base@, offset - chunk_index * (BLOB_SIZE as int), data@),
        r@.len() == BLOB_SIZE,
{
    let cb: usize = chunk_index * BLOB_SIZE;
    let ghost at = offset - chunk_index * (BLOB_SIZE as int);
    let mut r: Vec<u8> = Vec::new();
    let mut i: usize = 0;
    while i < BLOB_SIZE
        invariant
            i <= BLOB_SIZE,
            cb == chunk_index * BLOB_SIZE,
            cb + BLOB_SIZE <= usize::MAX,
            offset + data@.len() <= usize::MAX,
            base@.len() == BLOB_SIZE,
            at == offset - chunk_index * (BLOB_SIZE as int),
            r@.len() == i,
            forall|j: int| 0 <= j < i ==> r@[j] == overlay(base@, at, data@)[j],
        decreases BLOB_SIZE - i,
    {
        let g = cb + i;
        if offset <= g && g < offset + data.len() {
            r.push(data[g - offset]);
        } else {
            r.push(base[i]);
        }
        proof {
            assert(r@[i as int] == overlay(base@, at, data@)[i as int]);
        }
        i = i + 1;
    }
    proof {
        assert(r@ =~= overlay(base@, at, data@));
    }
    r
}

/// The bytes `[a, b)` of a vector.
fn vec_subrange_u8(v: &Vec<u8>, a: usize, b: usize) -> (r: Vec<u8>)
    requires
        a <= b <= v@.len(),
    ensures
        r@ == v@.subrange(a as int, b as int),
{
    let mut r: Vec<u8> = Vec::new();
    let mut i: usize = a;
    proof {
        assert(r@ =~= v@.subrange(a as int, a as int));
    }
    while i < b
        invariant
            a <= i <= b <= v@.len(),
            r@ == v@.subrange(a as int, i as int),
        decreases b - i,
    {
        r.push(v[i]);
        proof {
            assert(r@ =~= v@.subrange(a as int, i + 1));
        }
        i = i + 1;
    }
    r
}

} // verus!
