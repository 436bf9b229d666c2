//! The client synchronizer: the durable cache, the per-file write
//! buffers, the offline journal, and the split-phase pipeline the
//! transport loop drives.

use vstd::prelude::*;

use crate::errors::{OperationError, OperationErrorType, OperationResult};
use crate::id_generator::{IdGenerator, LocalTempIdGenerator};
use crate::modify_op::{ModifyOperation, ModifyOperationContentView};
use crate::modify_op_handler::{OperationApplier, OperationHandler};
use crate::open_file_handler::OpenFileHandler;
use crate::store::{has_by_name, JournalEntryView, Store, StoreModel};
use crate::timespec::Timespec;
use crate::types::{DirEntity, DirEntityView, FileType};
use crate::wrapper::StoreWrapper;

verus! {

/// Bounded retries for a journal flush before the client gives up.
pub const JOURNAL_MAX_RETRIES: u32 = 10;

/// The client filesystem: the cache store, the open-file table, and the
/// two one-shot flags the management bus toggles.
pub struct OffsFilesystem {
    pub store: StoreWrapper<LocalTempIdGenerator>,
    pub offline_mode: bool,
    pub should_flush_journal: bool,
    pub open_file_handler: OpenFileHandler,
}

impl OffsFilesystem {
    pub open spec fn model(self) -> StoreModel {
        self.store.model()
    }

    pub open spec fn inv(self) -> bool {
        &&& self.store.wf()
        &&& self.open_file_handler.wf()
    }

    pub fn new(store: Store<LocalTempIdGenerator>, offline_mode: bool) -> (r: OperationResult<
        OffsFilesystem,
    >)
        requires
            store.wf(),
            store.id_generator.ok(),
        ensures
            match r {
                Ok(fs) => fs.inv(),
                Err(e) => e.error_type == OperationErrorType::DatabaseError,
            },
    {
        let mut wrapped = StoreWrapper::new(store);
        match wrapped.create_default_root_directory() {
            Ok(_) => Ok(
                OffsFilesystem {
                    store: wrapped,
                    offline_mode,
                    should_flush_journal: false,
                    open_file_handler: OpenFileHandler::new(),
                },
            ),
            Err(e) => Err(e),
        }
    }

    /// Whether the client is offline; checked at every operation entry.
    pub fn is_offline(&self) -> (r: bool)
        ensures
            r == self.offline_mode,
    {
        self.offline_mode
    }

    /// Flips the offline flag; going online arms the journal flush.
    pub fn set_offline(&mut self, offline: bool)
        ensures
            final(self).offline_mode == offline,
            final(self).should_flush_journal == (old(self).should_flush_journal || (old(self).offline_mode && !offline)),
            final(self).store == old(self).store,
            final(self).open_file_handler == old(self).open_file_handler,
    {
        if self.offline_mode && !offline {
            self.should_flush_journal = true;
        }
        self.offline_mode = offline;
    }

    /// The cached entity an id names.
    pub fn query_file(&self, id: &str) -> (r: OperationResult<DirEntity>)
        requires
            self.inv(),
        ensures
            match r {
                Ok(d) => self.model().files.contains_key(id@) && d@ == self.model().files[id@],
                Err(e) => !self.model().files.contains_key(id@) && e.error_type
                    == OperationErrorType::FileDoesNotExist,
            },
    {
        self.store.query_file(id)
    }

    /// The cached entity at `(parent, name)`.
    pub fn query_file_by_name(&self, parent_id: &str, name: &str) -> (r: OperationResult<
        DirEntity,
    >)
        requires
            self.inv(),
        ensures
            match r {
                Ok(d) => {
                    &&& self.model().files.contains_key(d@.id)
                    &&& d@ == self.model().files[d@.id]
                    &&& d@.parent == parent_id@
                    &&& d@.name == name@
                },
                Err(e) => !has_by_name(self.model().files, parent_id@, name@) && e.error_type
                    == OperationErrorType::FileDoesNotExist,
            },
    {
        self.store.query_file_by_name(parent_id, name)
    }

    /// Lists a directory from the cache alone: offline, a directory
    /// never fetched cannot be listed; one fetched lists its cached
    /// children, an empty directory giving the empty list rather than
    /// an error.
    pub fn list_files_offline(&self, id: &str) -> (r: OperationResult<Vec<DirEntity>>)
        requires
            self.inv(),
        ensures
            match r {
                Ok(v) => {
                    &&& self.model().files.contains_key(id@)
                    &&& self.model().files[id@].retrieved_version != 0
                    &&& forall|j: int|
                        0 <= j < v@.len() ==> {
                            &&& (#[trigger] v@[j])@.parent == id@
                            &&& self.model().files.contains_key(v@[j]@.id)
                            &&& self.model().files[v@[j]@.id] == v@[j]@
                        }
                    &&& forall|k: Seq<char>|
                        #[trigger] self.model().files.contains_key(k)
                            && self.model().files[k].parent == id@ ==> exists|j: int|
                            0 <= j < v@.len() && (#[trigger] v@[j])@.id == k
                },
                Err(e) => {
                    &&& (e.error_type == OperationErrorType::FileDoesNotExist <==> !self.model().files.contains_key(id@))
                    &&& (e.error_type == OperationErrorType::Offline <==> self.model().files.contains_key(id@)
                        && self.model().files[id@].retrieved_version == 0)
                },
            },
    {
        let dirent = self.query_file(id)?;
        if !dirent.is_retrieved() {
            return Err(OperationError::offline());
        }
        Ok(self.store.list_files(id))
    }

    /// Whether two entity rows agree on everything but the client's
    /// cache watermark.
    pub open spec fn same_but_retrieved(a: DirEntityView, b: DirEntityView) -> bool {
        a == DirEntityView { retrieved_version: a.retrieved_version, ..b }
    }

    /// Takes a directory listing the server returned, in one committed
    /// transaction: every listed entity replaces its cached row, the
    /// directory's cache watermark advances to its content version, and
    /// cached children the server no longer lists are pruned — so the
    /// cached children of the directory are exactly the listed ones. On
    /// failure nothing changes.
    pub fn reconcile_listing(&mut self, id: &str, entities: &Vec<DirEntity>) -> (r:
        OperationResult<()>)
        requires
            old(self).inv(),
            old(self).store.inner.saved is None,
            forall|j: int| 0 <= j < entities@.len() ==> (#[trigger] entities@[j])@.parent == id@,
            forall|j: int| 0 <= j < entities@.len() ==> (#[trigger] entities@[j])@.id != id@,
            forall|x: int, y: int|
                0 <= x < y < entities@.len() ==> (#[trigger] entities@[x])@.id != (
                #[trigger] entities@[y])@.id,
        ensures
            final(self).inv(),
            final(self).store.inner.saved is None,
            final(self).offline_mode == old(self).offline_mode,
            final(self).should_flush_journal == old(self).should_flush_journal,
            final(self).open_file_handler == old(self).open_file_handler,
            match r {
                Ok(_) => {
                    &&& forall|j: int|
                        0 <= j < entities@.len() ==> final(self).model().files.contains_key(
                            (#[trigger] entities@[j])@.id,
                        ) && final(self).model().files[entities@[j]@.id].parent == id@
                            && Self::same_but_retrieved(
                            final(self).model().files[entities@[j]@.id],
                            entities@[j]@,
                        )
                    &&& forall|k: Seq<char>|
                        #[trigger] final(self).model().files.contains_key(k) && final(self).model().files[k].parent == id@ ==> entities@.map_values(
                            |d: DirEntity| d@.id,
                        ).contains(k)
                    &&& final(self).model().files.contains_key(id@) ==> final(self).model().files[id@].retrieved_version == final(self).model().files[id@].content_version
                },
                Err(e) => {
                    &&& final(self).model() == old(self).model()
                    &&& e.error_type == OperationErrorType::DatabaseError
                },
            },
    {
        self.store.inner.transaction_begin();
        let mut i: usize = 0;
        while i < entities.len()
            invariant
                self.inv(),
                self.store.inner.saved == old(self).store.inner.saved || self.store.inner.saved_model() == Some(old(self).model()),
                self.store.inner.saved_model() == Some(old(self).model()),
                self.offline_mode == old(self).offline_mode,
                self.should_flush_journal == old(self).should_flush_journal,
                self.open_file_handler == old(self).open_file_handler,
                i <= entities@.len(),
                forall|j: int|
                    0 <= j < entities@.len() ==> (#[trigger] entities@[j])@.parent == id@,
                forall|j: int| 0 <= j < entities@.len() ==> (#[trigger] entities@[j])@.id != id@,
                forall|x: int, y: int|
                    0 <= x < y < entities@.len() ==> (#[trigger] entities@[x])@.id != (
                    #[trigger] entities@[y])@.id,
                forall|j: int|
                    0 <= j < i ==> self.model().files.contains_key(
                        (#[trigger] entities@[j])@.id,
                    ) && self.model().files[entities@[j]@.id].parent == id@
                        && Self::same_but_retrieved(
                        self.model().files[entities@[j]@.id],
                        entities@[j]@,
                    ),
            decreases entities@.len() - i,
        {
            let ghost mpre = self.model();
            let r = self.store.add_or_replace_dirent(&entities[i]);
            match r {
                Ok(_) => {},
                Err(e) => {
                    self.store.inner.transaction_rollback();
                    return Err(e);
                },
            }
            proof {
                assert(self.model().files == mpre.files.insert(
                    entities@[i as int]@.id,
                    crate::store::stored_dirent_view(mpre.files, entities@[i as int]@),
                ));
                assert forall|j: int| 0 <= j < i + 1 implies self.model().files.contains_key(
                    (#[trigger] entities@[j])@.id,
                ) && self.model().files[entities@[j]@.id].parent == id@
                    && Self::same_but_retrieved(
                    self.model().files[entities@[j]@.id],
                    entities@[j]@,
                ) by {
                    if j < i {
                        assert(entities@[j]@.id != entities@[i as int]@.id);
                    }
                };
            }
            i = i + 1;
        }
        self.store.inner.tables.update_retrieved_version(id);
        proof {
            assert forall|j: int| 0 <= j < entities@.len() implies self.model().files.contains_key(
                (#[trigger] entities@[j])@.id,
            ) && self.model().files[entities@[j]@.id].parent == id@
                && Self::same_but_retrieved(
                self.model().files[entities@[j]@.id],
                entities@[j]@,
            ) by {
                assert(entities@[j]@.id != id@);
            };
        }
        let mut keep: Vec<String> = Vec::new();
        let mut k: usize = 0;
        while k < entities.len()
            invariant
                self.inv(),
                k <= entities@.len(),
                keep@.len() == k,
                forall|j: int| 0 <= j < k ==> (#[trigger] keep@[j])@ == entities@[j]@.id,
            decreases entities@.len() - k,
        {
            keep.push(crate::clone_string(&entities[k].id));
            k = k + 1;
        }
        let ghost mid = self.model();
        self.store.inner.tables.remove_remaining_files(id, &keep);
        self.store.inner.transaction_commit();
        proof {
            assert forall|j: int| 0 <= j < entities@.len() implies final(self).model().files.contains_key(
                (#[trigger] entities@[j])@.id,
            ) && final(self).model().files[entities@[j]@.id].parent == id@
                && Self::same_but_retrieved(
                final(self).model().files[entities@[j]@.id],
                entities@[j]@,
            ) by {
                assert(mid.files.contains_key(entities@[j]@.id));
                assert(keep@[j]@ == entities@[j]@.id);
                assert(keep@.map_values(|s: String| s@)[j] == entities@[j]@.id);
                assert(keep@.map_values(|s: String| s@).contains(entities@[j]@.id));
            };
            assert forall|key: Seq<char>|
                #[trigger] self.model().files.contains_key(key) && self.model().files[key].parent
                    == id@ implies entities@.map_values(|d: DirEntity| d@.id).contains(key) by {
                let kept = keep@.map_values(|s: String| s@);
                if !kept.contains(key) {
                    assert(false);
                } else {
                    let w = choose|w: int| 0 <= w < kept.len() && kept[w] == key;
                    assert(keep@[w]@ == key);
                    assert(entities@[w]@.id == key);
                    assert(entities@.map_values(|d: DirEntity| d@.id)[w] == key);
                }
            };
            if self.model().files.contains_key(id@) {
                assert(mid.files.contains_key(id@));
                assert(self.model().files[id@] == mid.files[id@]);
            }
        }
        Ok(())
    }

    /// Stores blobs fetched from the server.
    pub fn store_blobs(&mut self, blobs: Vec<(String, Vec<u8>)>) -> (r: OperationResult<()>)
        requires
            old(self).inv(),
        ensures
            final(self).inv(),
            final(self).offline_mode == old(self).offline_mode,
            final(self).should_flush_journal == old(self).should_flush_journal,
            final(self).open_file_handler == old(self).open_file_handler,
            match r {
                Ok(_) => {
                    &&& forall|k: Seq<char>|
                        #[trigger] old(self).model().blobs.contains_key(k) ==> final(self).model().blobs.contains_key(k)
                    &&& forall|j: int|
                        0 <= j < blobs@.len() ==> final(self).model().blobs.contains_key(
                            crate::blob_id::blob_id_of((#[trigger] blobs@[j]).1@),
                        ) && final(self).model().blobs[crate::blob_id::blob_id_of(blobs@[j].1@)]
                            == crate::blob_id::trim_zeros(blobs@[j].1@)
                },
                Err(e) => e.error_type == OperationErrorType::DatabaseError,
            },
    {
        let mut i: usize = 0;
        while i < blobs.len()
            invariant
                self.inv(),
                self.offline_mode == old(self).offline_mode,
                self.should_flush_journal == old(self).should_flush_journal,
                self.open_file_handler == old(self).open_file_handler,
                i <= blobs@.len(),
                forall|k: Seq<char>|
                    #[trigger] old(self).model().blobs.contains_key(k)
                        ==> self.model().blobs.contains_key(k),
                forall|j: int|
                    0 <= j < i ==> self.model().blobs.contains_key(
                        crate::blob_id::blob_id_of((#[trigger] blobs@[j]).1@),
                    ) && self.model().blobs[crate::blob_id::blob_id_of(blobs@[j].1@)]
                        == crate::blob_id::trim_zeros(blobs@[j].1@),
            decreases blobs@.len() - i,
        {
            let added = self.store.add_blob(blobs[i].1.as_slice());
            match added {
                Ok(_) => {},
                Err(e) => {
                    return Err(e);
                },
            }
            i = i + 1;
        }
        Ok(())
    }

    /// Whether a read of the range must go to the server first, and for
    /// which blobs.
    pub fn missing_blobs_for_read(&self, id: &str, offset: usize, size: u32) -> (r: Vec<String>)
        requires
            self.inv(),
            offset + size <= usize::MAX,
        ensures
            forall|p: int, q: int| 0 <= p < q < r@.len() ==> (#[trigger] r@[p])@ != (
                #[trigger] r@[q])@,
            forall|j: int|
                0 <= j < r@.len() ==> !self.model().blobs.contains_key((#[trigger] r@[j])@)
                    && crate::wrapper::covered_chunks(
                    self.model(),
                    id@,
                    offset as int,
                    size as int,
                ).contains(r@[j]@),
            forall|j: int|
                0 <= j < crate::wrapper::covered_chunks(
                    self.model(),
                    id@,
                    offset as int,
                    size as int,
                ).len() && !self.model().blobs.contains_key(
                    #[trigger] crate::wrapper::covered_chunks(
                        self.model(),
                        id@,
                        offset as int,
                        size as int,
                    )[j],
                ) ==> r@.map_values(|s: String| s@).contains(
                    crate::wrapper::covered_chunks(
                        self.model(),
                        id@,
                        offset as int,
                        size as int,
                    )[j],
                ),
    {
        self.store.get_missing_blobs_for_read(id, offset, size)
    }

    /// Reads from the cache; every covered blob must already be present.
    pub fn read(&self, id: &str, offset: usize, size: u32) -> (r: OperationResult<Vec<u8>>)
        requires
            self.inv(),
            offset + size <= usize::MAX,
        ensures
            match r {
                Ok(v) => v@ == crate::wrapper::read_result(
                    self.model(),
                    id@,
                    offset as int,
                    size as int,
                ),
                Err(e) => e.error_type == OperationErrorType::BlobDoesNotExist,
            },
    {
        self.store.read(id, offset, size)
    }

    /// The offline gate of a chunk refresh: offline, a file whose cache
    /// is stale and non-empty cannot be refreshed.
    pub fn update_chunks_offline_ok(&self, id: &str) -> (r: OperationResult<bool>)
        requires
            self.inv(),
        ensures
            match r {
                Ok(ok) => self.model().files.contains_key(id@) && (ok <==> (
                self.model().files[id@].stat.size == 0 || self.model().files[id@].retrieved_version
                    == self.model().files[id@].content_version)),
                Err(e) => !self.model().files.contains_key(id@) && e.error_type
                    == OperationErrorType::FileDoesNotExist,
            },
    {
        let dirent = self.query_file(id)?;
        Ok(dirent.stat.size == 0 || dirent.is_up_to_date())
    }

    /// Installs the chunk list the server returned for a file, index by
    /// index, drops any chunks past its end, and advances the file's
    /// cache watermark to its content version.
    pub fn apply_remote_chunks(&mut self, id: &str, chunks: &Vec<String>) -> (r: OperationResult<
        (),
    >)
        requires
            old(self).inv(),
        ensures
            final(self).inv(),
            final(self).offline_mode == old(self).offline_mode,
            final(self).should_flush_journal == old(self).should_flush_journal,
            final(self).open_file_handler == old(self).open_file_handler,
            final(self).model().blobs == old(self).model().blobs,
            final(self).model().journal == old(self).model().journal,
            r is Ok,
            chunks@.len() > 0 ==> final(self).model().chunks.contains_key(id@),
            final(self).model().chunks.contains_key(id@) ==> final(self).model().chunks[id@]
                == crate::str_views(chunks@),
            forall|f: Seq<char>|
                f != id@ ==> ((#[trigger] final(self).model().chunks.contains_key(f) <==> old(self).model().chunks.contains_key(f)) && (old(self).model().chunks.contains_key(f)
                    ==> final(self).model().chunks[f] == old(self).model().chunks[f])),
            old(self).model().files.contains_key(id@) ==> final(self).model().files == old(self).model().files.insert(
                id@,
                DirEntityView {
                    retrieved_version: old(self).model().files[id@].content_version,
                    ..old(self).model().files[id@]
                },
            ),
            !old(self).model().files.contains_key(id@) ==> final(self).model().files == old(self).model().files,
    {
        let ghost m0 = self.model();
        let mut j: usize = 0;
        while j < chunks.len()
            invariant
                self.inv(),
                self.offline_mode == old(self).offline_mode,
                self.should_flush_journal == old(self).should_flush_journal,
                self.open_file_handler == old(self).open_file_handler,
                self.store.inner.saved == old(self).store.inner.saved,
                j <= chunks@.len(),
                self.model().blobs == m0.blobs,
                self.model().files == m0.files,
                self.model().journal == m0.journal,
                crate::wrapper::chunk_count(self.model(), id@) >= j,
                j > 0 ==> self.model().chunks.contains_key(id@),
                forall|q: int|
                    0 <= q < j ==> self.model().chunks[id@][q] == (#[trigger] chunks@[q])@,
                forall|f: Seq<char>|
                    f != id@ ==> ((#[trigger] self.model().chunks.contains_key(f)
                        <==> m0.chunks.contains_key(f)) && (m0.chunks.contains_key(f)
                        ==> self.model().chunks[f] == m0.chunks[f])),
            decreases chunks@.len() - j,
        {
            let ghost mpre = self.model();
            let cur = self.store.get_chunks(id);
            proof {
                assert(cur@.map_values(|s: String| s@).len() == cur@.len());
            }
            let at = if j <= cur.len() {
                j
            } else {
                cur.len()
            };
            self.store.inner.tables.replace_chunk(id, at, chunks[j].as_str());
            proof {
                let lst = crate::store::chunk_list_after_replace(
                    mpre.chunks,
                    id@,
                    j as int,
                    chunks@[j as int]@,
                );
                assert(self.model().chunks == mpre.chunks.insert(id@, lst));
                assert(lst[j as int] == chunks@[j as int]@);
            }
            j = j + 1;
        }
        let ghost m_rows = self.model();
        self.store.inner.tables.truncate_chunks(id, chunks.len());
        proof {
            if m_rows.chunks.contains_key(id@) {
                assert(self.model().chunks == m_rows.chunks.insert(
                    id@,
                    m_rows.chunks[id@].subrange(
                        0,
                        crate::store::truncated_len(
                            m_rows.chunks[id@].len() as int,
                            chunks@.len() as int,
                        ),
                    ),
                ));
                assert(self.model().chunks[id@] =~= crate::str_views(chunks@));
            }
        }
        self.store.inner.tables.update_retrieved_version(id);
        proof {
            if !m0.files.contains_key(id@) {
                assert(self.model().files =~= m0.files);
            }
        }
        Ok(())
    }

    /// Opens a file, handing back its handle.    /// Opens a file, handing back its handle.
    pub fn open_file(&mut self, id: String) -> (r: u64)
        requires
            old(self).inv(),
            old(self).open_file_handler.next_fh < u64::MAX,
        ensures
            final(self).inv(),
            final(self).store == old(self).store,
            r == old(self).open_file_handler.next_fh,
            final(self).open_file_handler.has_fh(r),
    {
        self.open_file_handler.open_file(id)
    }

    /// Closes a handle, dropping any writes still buffered.
    pub fn close_file(&mut self, fh: u64)
        requires
            old(self).inv(),
        ensures
            final(self).inv(),
            final(self).store == old(self).store,
            !final(self).open_file_handler.has_fh(fh),
    {
        self.open_file_handler.close_file(fh);
    }

    /// Buffers a write on an open handle; a true result asks the caller
    /// to flush now.
    pub fn write_buffered(
        &mut self,
        fh: u64,
        operation: crate::write_buffer::WriteOperation,
    ) -> (r: bool)
        requires
            old(self).inv(),
            old(self).open_file_handler.has_fh(fh),
            old(self).open_file_handler.entry(fh).write_buffer.spec_size() + operation@.data.len()
                <= usize::MAX,
        ensures
            final(self).inv(),
            final(self).store == old(self).store,
            final(self).offline_mode == old(self).offline_mode,
            final(self).should_flush_journal == old(self).should_flush_journal,
            final(self).open_file_handler.has_fh(fh),
            final(self).open_file_handler.idx_of(fh) == old(self).open_file_handler.idx_of(fh),
            final(self).open_file_handler.files@.len() == old(self).open_file_handler.files@.len(),
            forall|j: int|
                0 <= j < final(self).open_file_handler.files@.len() && j != old(self).open_file_handler.idx_of(fh) ==> #[trigger] final(self).open_file_handler.files@[j]
                    == old(self).open_file_handler.files@[j],
            final(self).open_file_handler.entry(fh).id == old(self).open_file_handler.entry(
                fh,
            ).id,
            final(self).open_file_handler.entry(fh).write_buffer.spec_size() == old(self).open_file_handler.entry(fh).write_buffer.spec_size() + operation@.data.len(),
            old(self).open_file_handler.entry(fh).write_buffer@.contains(operation@) ==> final(self).open_file_handler.entry(fh).write_buffer@ == old(self).open_file_handler.entry(
                fh,
            ).write_buffer@,
            !old(self).open_file_handler.entry(fh).write_buffer@.contains(operation@) ==> final(self).open_file_handler.entry(fh).write_buffer@.to_multiset() == old(self).open_file_handler.entry(fh).write_buffer@.to_multiset().insert(operation@),
            r == (final(self).open_file_handler.entry(fh).write_buffer.spec_size()
                >= crate::write_buffer::FLUSH_THRESHOLD),
    {
        self.open_file_handler.write(fh, operation)
    }

    /// Drains and coalesces an open handle's buffered writes; the
    /// caller turns each into a write operation through the pipeline.
    pub fn flush_buffer(&mut self, fh: u64) -> (r: (
        String,
        Vec<crate::write_buffer::WriteOperation>,
    ))
        requires
            old(self).inv(),
            old(self).open_file_handler.has_fh(fh),
        ensures
            final(self).inv(),
            final(self).store == old(self).store,
            final(self).open_file_handler.has_fh(fh),
            r.0@ == old(self).open_file_handler.entry(fh).id@,
            r.1@.map_values(|o: crate::write_buffer::WriteOperation| o@)
                == crate::write_buffer::coalesce(
                old(self).open_file_handler.entry(fh).write_buffer@,
            ),
    {
        self.open_file_handler.flush(fh)
    }

    /// The handles of every open file.
    pub fn get_file_handles(&self) -> (r: Vec<u64>)
        ensures
            r@ == self.open_file_handler.files@.map_values(
                |p: (u64, crate::open_file_handler::OpenFile)| p.0,
            ),
    {
        self.open_file_handler.get_file_handles()
    }

    /// The local half of the pipeline really applied the operation:
    /// some intermediate state is the dispatcher's post-state, and the
    /// final state differs from it only in the journal.
    pub open spec fn local_apply_witness(
        pre: OffsFilesystem,
        post: OffsFilesystem,
        op: crate::modify_op::ModifyOperationView,
        rid: String,
    ) -> bool {
        exists|mid: OffsFilesystem|
            {
                &&& #[trigger] crate::modify_op_handler::applier_post(
                    pre,
                    mid,
                    op,
                    false,
                    Ok(rid),
                )
                &&& post.model().files == mid.model().files
                &&& post.model().chunks == mid.model().chunks
                &&& post.model().blobs == mid.model().blobs
                &&& post.store.inner.id_generator == mid.store.inner.id_generator
            }
    }

    /// The first half of the single-operation pipeline: applies the
    /// operation to the local cache and journals its encoding, inside a
    /// transaction left open for the second half. Returns the id the
    /// operation resolved to and the journal row's sequence number; on
    /// failure everything rolls back.
    pub fn perform_operation_local(&mut self, operation: &ModifyOperation) -> (r: OperationResult<
        (String, i64),
    >)
        requires
            old(self).inv(),
            old(self).store.inner.saved is None,
            old(self).store.inner.id_generator.ok(),
            old(self).store.inner.tables.next_journal_seq < i64::MAX,
        ensures
            final(self).inv(),
            final(self).offline_mode == old(self).offline_mode,
            final(self).should_flush_journal == old(self).should_flush_journal,
            match r {
                Ok(p) => {
                    &&& final(self).store.inner.saved_model() == Some(old(self).model())
                    &&& final(self).model().journal == old(self).model().journal.push(
                        JournalEntryView {
                            seq: p.1,
                            file: operation@.id,
                            operation: crate::serialization::ser_op(operation@),
                        },
                    )
                    &&& Self::local_apply_witness(*old(self), *final(self), operation@, p.0)
                    &&& !crate::modify_op::is_create_content(operation@.operation) ==> p.0@
                        == operation@.id
                },
                Err(_) => {
                    &&& final(self).store.inner.saved is None
                    &&& final(self).model() == old(self).model()
                },
            },
    {
        self.store.inner.transaction_begin();
        let ghost pre_apply = *self;
        let applied = OperationApplier::apply_operation(self, operation);
        let new_id = match applied {
            Ok(id) => id,
            Err(e) => {
                self.store.inner.transaction_rollback();
                return Err(e);
            },
        };
        proof {
            assert(crate::modify_op_handler::applier_post(
                *old(self),
                *self,
                operation@,
                false,
                Ok(new_id),
            )) by {
                assert(crate::modify_op_handler::applier_post(
                    pre_apply,
                    *self,
                    operation@,
                    false,
                    Ok(new_id),
                ));
                assert(pre_apply.model() == old(self).model());
                assert(pre_apply.store.inner.id_generator == old(self).store.inner.id_generator);
            };
        }
        let ghost mid_state = *self;
        let serialized = crate::serialization::serialize_op(operation);
        if self.store.inner.tables.next_journal_seq == i64::MAX {
            self.store.inner.transaction_rollback();
            return Err(
                OperationError::new(
                    OperationErrorType::DatabaseError,
                    String::from_str("journal sequence exhausted"),
                ),
            );
        }
        let seq = self.store.inner.tables.add_journal_entry(
            operation.id.as_str(),
            serialized.as_slice(),
        );
        proof {
            assert(crate::modify_op_handler::applier_post(
                *old(self),
                mid_state,
                operation@,
                false,
                Ok(new_id),
            ));
            assert(self.model().files == mid_state.model().files);
            assert(self.model().chunks == mid_state.model().chunks);
            assert(self.model().blobs == mid_state.model().blobs);
            assert(self.store.inner.id_generator == mid_state.store.inner.id_generator);
            assert(Self::local_apply_witness(*old(self), *self, operation@, new_id)) by {
                assert(crate::modify_op_handler::applier_post(
                    *old(self),
                    mid_state,
                    operation@,
                    false,
                    Ok(new_id),
                ) && self.model().files == mid_state.model().files && self.model().chunks
                    == mid_state.model().chunks && self.model().blobs == mid_state.model().blobs
                    && self.store.inner.id_generator == mid_state.store.inner.id_generator);
            };
        }
        Ok((new_id, seq))
    }

    /// The offline close of the pipeline: the journal row stays for the
    /// replay, and the transaction commits.
    pub fn finish_operation_offline(&mut self, new_id: &str) -> (r: OperationResult<DirEntity>)
        requires
            old(self).inv(),
        ensures
            final(self).inv(),
            final(self).store.inner.saved is None,
            final(self).model() == old(self).model(),
            match r {
                Ok(d) => final(self).model().files.contains_key(new_id@) && d@ == final(self).model().files[new_id@],
                Err(e) => e.error_type == OperationErrorType::FileDoesNotExist,
            },
    {
        self.store.inner.transaction_commit();
        self.store.query_file(new_id)
    }

    /// The transport-failure close of the pipeline: as the offline
    /// close, the journal row staying for the deferred replay.
    pub fn finish_operation_failed(&mut self)
        requires
            old(self).inv(),
        ensures
            final(self).inv(),
            final(self).store.inner.saved is None,
            final(self).model() == old(self).model(),
    {
        self.store.inner.transaction_commit();
    }

    /// The online close of the pipeline: the server accepted, so the
    /// journal row goes, a create's temporary id gives way to the
    /// server's, the authoritative entity lands in the cache, and the
    /// transaction commits.
    pub fn finish_operation_online(
        &mut self,
        seq: i64,
        new_id: &str,
        server_dirent: &DirEntity,
    ) -> (r: OperationResult<DirEntity>)
        requires
            old(self).inv(),
            old(self).store.inner.saved is Some,
        ensures
            final(self).inv(),
            final(self).store.inner.saved is None,
            final(self).offline_mode == old(self).offline_mode,
            final(self).should_flush_journal == old(self).should_flush_journal,
            match r {
                Ok(d) => {
                    &&& d@ == server_dirent@
                    &&& exists|m2: StoreModel|
                        #![trigger crate::store::stored_dirent_view(m2.files, server_dirent@)]
                        {
                            &&& (new_id@ == server_dirent@.id ==> m2 == old(self).model().with_journal(
                                old(self).model().journal.filter(
                                    |e: JournalEntryView| e.seq != seq,
                                ),
                            ))
                            &&& (new_id@ != server_dirent@.id ==> crate::store::change_id_ok(
                                old(self).model().with_journal(
                                    old(self).model().journal.filter(
                                        |e: JournalEntryView| e.seq != seq,
                                    ),
                                ),
                                m2,
                                new_id@,
                                server_dirent@.id,
                            ))
                            &&& final(self).model() == m2.with_files(
                                m2.files.insert(
                                    server_dirent@.id,
                                    crate::store::stored_dirent_view(m2.files, server_dirent@),
                                ),
                            )
                        }
                },
                Err(e) => e.error_type == OperationErrorType::DatabaseError,
            },
    {
        self.store.inner.tables.remove_journal_item(seq);
        let ghost m1 = self.model();
        if !crate::str_eq(new_id, server_dirent.id.as_str()) {
            let changed = self.store.change_id(new_id, server_dirent.id.as_str());
            match changed {
                Ok(_) => {},
                Err(e) => {
                    self.store.inner.transaction_rollback();
                    return Err(e);
                },
            }
            proof {
                assert(crate::store::change_id_ok(m1, self.model(), new_id@, server_dirent@.id));
            }
        }
        let ghost m2 = self.model();
        let put = self.store.add_or_replace_dirent(server_dirent);
        match put {
            Ok(_) => {},
            Err(e) => {
                self.store.inner.transaction_rollback();
                return Err(e);
            },
        }
        self.store.inner.transaction_commit();
        proof {
            if new_id@ == server_dirent@.id {
                assert(m2 == m1);
            } else {
                assert(crate::store::change_id_ok(m1, m2, new_id@, server_dirent@.id));
            }
            assert(self.model() == m2.with_files(
                m2.files.insert(
                    server_dirent@.id,
                    crate::store::stored_dirent_view(m2.files, server_dirent@),
                ),
            ));
        }
        Ok(server_dirent.duplicate())
    }

    /// The journaled operations, decoded; each decoded operation
    /// re-encodes to exactly its journal row, so the replay submits the
    /// very operations that were journaled. A row no operation encodes
    /// to means the journal is corrupt.
    pub fn prepare_ops_to_send(&self) -> (r: OperationResult<Vec<ModifyOperation>>)
        requires
            self.inv(),
        ensures
            match r {
                Ok(ops) => {
                    &&& ops@.len() == self.model().journal.len()
                    &&& forall|j: int|
                        0 <= j < ops@.len() ==> crate::serialization::ser_op(
                            (#[trigger] ops@[j])@,
                        ) == self.model().journal[j].operation
                },
                Err(e) => e.error_type == OperationErrorType::DatabaseError,
            },
    {
        let rows = self.store.inner.tables.get_journal();
        let mut ops: Vec<ModifyOperation> = Vec::new();
        let mut i: usize = 0;
        while i < rows.len()
            invariant
                self.inv(),
                i <= rows@.len(),
                rows@.map_values(|v: Vec<u8>| v@) == self.model().journal.map_values(
                    |e: JournalEntryView| e.operation,
                ),
                ops@.len() == i,
                forall|j: int|
                    0 <= j < i ==> crate::serialization::ser_op((#[trigger] ops@[j])@)
                        == self.model().journal[j].operation,
            decreases rows@.len() - i,
        {
            let decoded = crate::serialization::deserialize_op(&rows[i]);
            match decoded {
                Some(op) => {
                    proof {
                        assert(rows@.map_values(|v: Vec<u8>| v@)[i as int] == rows@[i as int]@);
                        assert(self.model().journal.map_values(
                            |e: JournalEntryView| e.operation,
                        )[i as int] == self.model().journal[i as int].operation);
                    }
                    ops.push(op);
                },
                None => {
                    return Err(
                        OperationError::new(
                            OperationErrorType::DatabaseError,
                            String::from_str("corrupt journal row"),
                        ),
                    );
                },
            }
            i = i + 1;
        }
        proof {
            assert(rows@.map_values(|v: Vec<u8>| v@).len() == rows@.len());
        }
        Ok(ops)
    }

    /// The chunk lists of every temporary file, in ordinal order, for
    /// the journal submission.
    pub fn prepare_chunks_to_send(&self) -> (r: Vec<Vec<String>>)
        requires
            self.inv(),
        ensures
            r@.len() == self.store.inner.id_generator.next_id,
    {
        let temp_ids = self.store.inner.get_temp_file_ids();
        let mut r: Vec<Vec<String>> = Vec::new();
        let mut i: usize = 0;
        while i < temp_ids.len()
            invariant
                self.inv(),
                i <= temp_ids@.len(),
                r@.len() == i,
            decreases temp_ids@.len() - i,
        {
            r.push(self.store.get_chunks(temp_ids[i].as_str()));
            i = i + 1;
        }
        r
    }

    /// The distinct blob ids the temporary files reference; the caller
    /// asks the server which of them it lacks.
    pub fn temp_blob_ids(&self) -> (r: Vec<String>)
        requires
            self.inv(),
        ensures
            forall|p: int, q: int| 0 <= p < q < r@.len() ==> (#[trigger] r@[p])@ != (
                #[trigger] r@[q])@,
    {
        self.store.inner.get_temp_chunks()
    }

    /// The contents of the blobs the server asked for, in the order it
    /// asked.
    pub fn blobs_to_send(&self, ids: &Vec<String>) -> (r: Vec<Vec<u8>>)
        requires
            self.inv(),
        ensures
            r@.len() <= ids@.len(),
    {
        let pairs = self.store.inner.tables.get_blobs(ids);
        let mut r: Vec<Vec<u8>> = Vec::new();
        let mut i: usize = 0;
        proof {
            assert(pairs@.map_values(|p: (String, Vec<u8>)| (p.0@, p.1@)).len()
                == pairs@.len());
            Seq::lemma_filter_len(
                ids@.map_values(|s: String| s@),
                |k: Seq<char>| self.model().blobs.contains_key(k),
            );
            assert(ids@.map_values(|s: String| s@).len() == ids@.len());
        }
        while i < pairs.len()
            invariant
                i <= pairs@.len(),
                pairs@.len() <= ids@.len(),
                r@.len() == i,
            decreases pairs@.len() - i,
        {
            r.push(crate::clone_bytes(&pairs[i].1));
            i = i + 1;
        }
        r
    }

    /// The post-flush reconciliation: each temporary id gives way to
    /// the assigned authoritative id in journal order, the returned
    /// entities land in the cache, the journal empties, the temporary
    /// ordinals start over, and the flush trigger clears — in one
    /// transaction.
    pub fn apply_journal_reconcile(
        &mut self,
        assigned_ids: &Vec<String>,
        dir_entities: &Vec<DirEntity>,
    ) -> (r: OperationResult<()>)
        requires
            old(self).inv(),
            old(self).store.inner.saved is None,
        ensures
            final(self).inv(),
            final(self).store.inner.saved is None,
            final(self).offline_mode == old(self).offline_mode,
            match r {
                Ok(_) => {
                    &&& final(self).model() == crate::store::after_rewrites(
                        old(self).model(),
                        assigned_ids@.map_values(|s: String| s@),
                    ).with_files(
                        crate::store::after_upserts(
                            crate::store::after_rewrites(
                                old(self).model(),
                                assigned_ids@.map_values(|s: String| s@),
                            ).files,
                            dir_entities@.map_values(|d: DirEntity| d@),
                        ),
                    ).with_journal(Seq::<JournalEntryView>::empty())
                    &&& final(self).model().journal == Seq::<JournalEntryView>::empty()
                    &&& final(self).store.inner.id_generator.next_id == 0
                    &&& !final(self).should_flush_journal
                },
                Err(e) => {
                    &&& final(self).model() == old(self).model()
                    &&& e.error_type == OperationErrorType::DatabaseError
                },
            },
    {
        self.store.inner.transaction_begin();
        let ghost snap = self.store.inner.saved;
        let ghost assigned_seq = assigned_ids@.map_values(|s: String| s@);
        let mut i: usize = 0;
        proof {
            assert(assigned_seq.subrange(0, 0) =~= Seq::<Seq<char>>::empty());
        }
        while i < assigned_ids.len()
            invariant
                self.inv(),
                self.store.inner.saved == snap,
                i <= assigned_ids@.len(),
                assigned_seq == assigned_ids@.map_values(|s: String| s@),
                self.offline_mode == old(self).offline_mode,
                self.should_flush_journal == old(self).should_flush_journal,
                self.open_file_handler == old(self).open_file_handler,
                self.model() == crate::store::after_rewrites(
                    old(self).model(),
                    assigned_seq.subrange(0, i as int),
                ),
            decreases assigned_ids@.len() - i,
        {
            let ghost mpre = self.model();
            let temp = LocalTempIdGenerator::get_nth_id(i);
            let changed = self.store.change_id(temp.as_str(), assigned_ids[i].as_str());
            match changed {
                Ok(_) => {},
                Err(e) => {
                    self.store.inner.transaction_rollback();
                    return Err(e);
                },
            }
            proof {
                let prefix = assigned_seq.subrange(0, i + 1);
                assert(prefix.drop_last() =~= assigned_seq.subrange(0, i as int));
                assert(prefix.last() == assigned_seq[i as int]);
                assert(self.model() == crate::store::after_change_id(
                    mpre,
                    crate::id_generator::temp_id_seq(i as nat),
                    assigned_seq[i as int],
                ));
            }
            i = i + 1;
        }
        proof {
            assert(assigned_seq.subrange(0, assigned_seq.len() as int) =~= assigned_seq);
        }
        let ghost m_rw = self.model();
        let ghost ents_seq = dir_entities@.map_values(|d: DirEntity| d@);
        let mut j: usize = 0;
        proof {
            assert(ents_seq.subrange(0, 0) =~= Seq::<DirEntityView>::empty());
        }
        while j < dir_entities.len()
            invariant
                self.inv(),
                self.store.inner.saved == snap,
                j <= dir_entities@.len(),
                ents_seq == dir_entities@.map_values(|d: DirEntity| d@),
                self.offline_mode == old(self).offline_mode,
                self.should_flush_journal == old(self).should_flush_journal,
                self.open_file_handler == old(self).open_file_handler,
                self.model() == m_rw.with_files(
                    crate::store::after_upserts(m_rw.files, ents_seq.subrange(0, j as int)),
                ),
            decreases dir_entities@.len() - j,
        {
            let ghost mpre = self.model();
            let put = self.store.add_or_replace_dirent(&dir_entities[j]);
            match put {
                Ok(_) => {},
                Err(e) => {
                    self.store.inner.transaction_rollback();
                    return Err(e);
                },
            }
            proof {
                let prefix = ents_seq.subrange(0, j + 1);
                assert(prefix.drop_last() =~= ents_seq.subrange(0, j as int));
                assert(prefix.last() == ents_seq[j as int]);
                assert(self.model() =~= m_rw.with_files(
                    crate::store::after_upserts(m_rw.files, prefix),
                ));
            }
            j = j + 1;
        }
        proof {
            assert(ents_seq.subrange(0, ents_seq.len() as int) =~= ents_seq);
        }
        self.store.inner.tables.clear_journal();
        self.store.inner.reset_id_generator();
        self.store.inner.transaction_commit();
        self.should_flush_journal = false;
        proof {
            assert(self.model() =~= m_rw.with_files(
                crate::store::after_upserts(m_rw.files, ents_seq),
            ).with_journal(Seq::<JournalEntryView>::empty()));
        }
        Ok(())
    }

    /// Clears the one-shot flush trigger when a flush finds the journal
    /// already empty: there is nothing to replay, so the flush is done.
    pub fn mark_journal_flushed(&mut self)
        ensures
            final(self).store == old(self).store,
            final(self).offline_mode == old(self).offline_mode,
            final(self).open_file_handler == old(self).open_file_handler,
            !final(self).should_flush_journal,
    {
        self.should_flush_journal = false;
    }

    /// The journal row a conflict re-creation appends first: a create of
    /// the file under its parent, with the parent's observed versions.
    pub open spec fn recreate_op_view(
        p: DirEntityView,
        t: Timespec,
        d: DirEntityView,
    ) -> crate::modify_op::ModifyOperationView {
        crate::modify_op::ModifyOperationView {
            id: p.id,
            timestamp: t,
            dirent_version: p.dirent_version,
            content_version: p.content_version,
            operation: ModifyOperationContentView::CreateFileOperation(
                crate::modify_op::CreateFileOperationView {
                    name: d.name,
                    file_type: d.stat.file_type,
                    perm: d.stat.mode,
                    dev: d.stat.dev,
                },
            ),
        }
    }

    /// The journal row a conflict re-creation appends second: the full
    /// stat restored against the fresh temporary id.
    pub open spec fn reset_op_view(
        d: DirEntityView,
        t: Timespec,
    ) -> crate::modify_op::ModifyOperationView {
        crate::modify_op::ModifyOperationView {
            id: d.id,
            timestamp: t,
            dirent_version: d.dirent_version,
            content_version: d.content_version,
            operation: ModifyOperationContentView::SetAttributesOperation(
                crate::modify_op::SetAttributesOperation {
                    perm: Some(d.stat.mode),
                    uid: Some(d.stat.uid),
                    gid: Some(d.stat.gid),
                    size: Some(d.stat.size),
                    atim: Some(d.stat.atim),
                    mtim: Some(d.stat.mtim),
                },
            ),
        }
    }

    /// The part of the client's state a journal rebuild moves: the
    /// store model, the next temporary ordinal and the next journal
    /// sequence number.
    pub open spec fn sync_core(fs: OffsFilesystem) -> (StoreModel, usize, i64) {
        (
            fs.model(),
            fs.store.inner.id_generator.next_id,
            fs.store.inner.tables.next_journal_seq,
        )
    }

    /// What re-creating one conflicted file does: its journal rows go,
    /// the entity and its chunks move to the next temporary id, and two
    /// rows are appended in order — the re-create under the parent,
    /// then the attribute reset against the fresh id.
    pub open spec fn recreate_one(
        pre: (StoreModel, usize, i64),
        post: (StoreModel, usize, i64),
        id: Seq<char>,
        t: Timespec,
    ) -> bool {
        let m1 = pre.0.with_journal(pre.0.journal.filter(|e: JournalEntryView| e.file != id));
        let tid = crate::id_generator::temp_id_seq(pre.1 as nat);
        let m2 = crate::store::after_change_id(m1, id, tid);
        &&& post.1 == pre.1 + 1
        &&& m2.files.contains_key(tid)
        &&& m2.files.contains_key(m2.files[tid].parent)
        &&& ({
            let d = m2.files[tid];
            let p = m2.files[d.parent];
            &&& post.0 == m2.with_journal(
                m2.journal.push(
                    JournalEntryView {
                        seq: pre.2,
                        file: d.parent,
                        operation: crate::serialization::ser_op(Self::recreate_op_view(p, t, d)),
                    },
                ).push(
                    JournalEntryView {
                        seq: (pre.2 + 1) as i64,
                        file: tid,
                        operation: crate::serialization::ser_op(Self::reset_op_view(d, t)),
                    },
                ),
            )
            &&& post.2 == pre.2 + 2
        })
    }

    /// The re-creations of a whole conflict report, in order.
    pub open spec fn recreate_chain(
        pre: (StoreModel, usize, i64),
        post: (StoreModel, usize, i64),
        ids: Seq<Seq<char>>,
        t: Timespec,
    ) -> bool
        decreases ids.len(),
    {
        if ids.len() == 0 {
            post == pre
        } else {
            exists|mid: (StoreModel, usize, i64)|
                {
                    &&& Self::recreate_chain(pre, mid, ids.drop_last(), t)
                    &&& #[trigger] Self::recreate_one(mid, post, ids.last(), t)
                }
        }
    }

    /// The conflict recovery of the flush loop: each losing file's
    /// journal rows go, the file moves to a fresh temporary id, and two
    /// new journal rows re-create it and restore its attributes, for
    /// the next flush iteration to submit.
    pub fn recreate_conflicting_files(
        &mut self,
        ids: &Vec<String>,
        timestamp: Timespec,
    ) -> (r: OperationResult<()>)
        requires
            old(self).inv(),
            old(self).store.inner.saved is None,
        ensures
            final(self).inv(),
            final(self).store.inner.saved is None,
            final(self).offline_mode == old(self).offline_mode,
            final(self).should_flush_journal == old(self).should_flush_journal,
            match r {
                Ok(_) => Self::recreate_chain(
                    Self::sync_core(*old(self)),
                    Self::sync_core(*final(self)),
                    crate::str_views(ids@),
                    timestamp,
                ),
                Err(_) => final(self).model() == old(self).model(),
            },
    {
        self.store.inner.transaction_begin();
        let ghost snap = self.store.inner.saved;
        let ghost idsv = crate::str_views(ids@);
        let mut i: usize = 0;
        proof {
            assert(idsv.subrange(0, 0) =~= Seq::<Seq<char>>::empty());
        }
        while i < ids.len()
            invariant
                self.inv(),
                self.store.inner.saved == snap,
                i <= ids@.len(),
                idsv == crate::str_views(ids@),
                self.offline_mode == old(self).offline_mode,
                self.should_flush_journal == old(self).should_flush_journal,
                Self::recreate_chain(
                    Self::sync_core(*old(self)),
                    Self::sync_core(*self),
                    idsv.subrange(0, i as int),
                    timestamp,
                ),
            decreases ids@.len() - i,
        {
            let ghost mid_state = *self;
            let done = self.recreate_conflicting_file(ids[i].as_str(), timestamp);
            match done {
                Ok(_) => {},
                Err(e) => {
                    self.store.inner.transaction_rollback();
                    return Err(e);
                },
            }
            proof {
                let prefix = idsv.subrange(0, i + 1);
                assert(prefix.drop_last() =~= idsv.subrange(0, i as int));
                assert(prefix.last() == idsv[i as int]);
                assert(idsv[i as int] == ids@[i as int]@);
                assert(Self::recreate_chain(
                    Self::sync_core(*old(self)),
                    Self::sync_core(*self),
                    prefix,
                    timestamp,
                )) by {
                    assert(Self::recreate_chain(
                        Self::sync_core(*old(self)),
                        Self::sync_core(mid_state),
                        prefix.drop_last(),
                        timestamp,
                    ) && Self::recreate_one(
                        Self::sync_core(mid_state),
                        Self::sync_core(*self),
                        prefix.last(),
                        timestamp,
                    ));
                };
            }
            i = i + 1;
        }
        self.store.inner.transaction_commit();
        proof {
            assert(idsv.subrange(0, idsv.len() as int) =~= idsv);
        }
        Ok(())
    }

    /// Rebuilds one conflicted file's journal entries under a fresh
    /// temporary id.
    fn recreate_conflicting_file(&mut self, id: &str, timestamp: Timespec) -> (r: OperationResult<
        (),
    >)
        requires
            old(self).inv(),
        ensures
            final(self).inv(),
            final(self).store.inner.saved == old(self).store.inner.saved,
            final(self).offline_mode == old(self).offline_mode,
            final(self).should_flush_journal == old(self).should_flush_journal,
            r is Ok ==> Self::recreate_one(
                Self::sync_core(*old(self)),
                Self::sync_core(*final(self)),
                id@,
                timestamp,
            ),
    {
        let ghost pre_next_seq = self.store.inner.tables.next_journal_seq;
        let ghost pre_gen = self.store.inner.id_generator.next_id;
        self.store.inner.tables.remove_file_from_journal(id);
        let ghost m1v = self.model();
        proof {
            assert(m1v == old(self).model().with_journal(
                old(self).model().journal.filter(|e: JournalEntryView| e.file != id@),
            ));
        }
        if self.store.inner.id_generator.next_id == usize::MAX {
            return Err(
                OperationError::new(
                    OperationErrorType::DatabaseError,
                    String::from_str("temporary ids exhausted"),
                ),
            );
        }
        let new_id = match self.store.inner.assign_temp_id(id) {
            Ok(v) => v,
            Err(e) => {
                return Err(e);
            },
        };
        let ghost tid = crate::id_generator::temp_id_seq(pre_gen as nat);
        let ghost m2v = self.model();
        proof {
            assert(new_id@ == tid);
            assert(m2v == crate::store::after_change_id(m1v, id@, tid));
        }
        let dirent = self.store.query_file(new_id.as_str())?;
        let parent_dirent = self.store.query_file(dirent.parent.as_str())?;
        proof {
            assert(dirent@ == m2v.files[tid]);
            assert(parent_dirent@ == m2v.files[dirent@.parent]);
        }
        let recreate_op = crate::modify_op_builder::ModifyOpBuilder::make_recreate_file_op(
            &parent_dirent,
            timestamp,
            &dirent,
        );
        proof {
            assert(recreate_op@ == Self::recreate_op_view(parent_dirent@, timestamp, dirent@));
        }
        let recreate_bytes = crate::serialization::serialize_op(&recreate_op);
        if self.store.inner.tables.next_journal_seq == i64::MAX {
            return Err(
                OperationError::new(
                    OperationErrorType::DatabaseError,
                    String::from_str("journal sequence exhausted"),
                ),
            );
        }
        let _ = self.store.inner.tables.add_journal_entry(
            dirent.parent.as_str(),
            recreate_bytes.as_slice(),
        );
        let reset_op = crate::modify_op_builder::ModifyOpBuilder::make_reset_attributes_op(
            &dirent,
            timestamp,
        );
        proof {
            assert(reset_op@ == Self::reset_op_view(dirent@, timestamp));
        }
        let reset_bytes = crate::serialization::serialize_op(&reset_op);
        if self.store.inner.tables.next_journal_seq == i64::MAX {
            return Err(
                OperationError::new(
                    OperationErrorType::DatabaseError,
                    String::from_str("journal sequence exhausted"),
                ),
            );
        }
        let _ = self.store.inner.tables.add_journal_entry(
            new_id.as_str(),
            reset_bytes.as_slice(),
        );
        proof {
            assert(self.model() == m2v.with_journal(
                m2v.journal.push(
                    JournalEntryView {
                        seq: pre_next_seq,
                        file: dirent@.parent,
                        operation: crate::serialization::ser_op(
                            Self::recreate_op_view(parent_dirent@, timestamp, dirent@),
                        ),
                    },
                ).push(
                    JournalEntryView {
                        seq: (pre_next_seq + 1) as i64,
                        file: tid,
                        operation: crate::serialization::ser_op(
                            Self::reset_op_view(dirent@, timestamp),
                        ),
                    },
                ),
            ));
            assert(Self::recreate_one(
                Self::sync_core(*old(self)),
                Self::sync_core(*self),
                id@,
                timestamp,
            ));
        }
        Ok(())
    }
}

/// What the flush loop does with one server reply to a journal
/// submission: reconcile and stop on success, rebuild the losing files
/// and resubmit on a conflict, resubmit as is when blobs were missing,
/// and give up on a rejected journal.
pub enum FlushStep {
    Reconcile(crate::errors::JournalApplyData),
    Recreate(Vec<String>),
    Retry,
    Fatal,
}

/// The per-reply decision of the journal-flush loop.
pub fn flush_decision(reply: Result<crate::errors::JournalApplyData, crate::errors::JournalApplyError>)
    -> (r: FlushStep)
    ensures
        match reply {
            Ok(data) => r matches FlushStep::Reconcile(d) && d == data,
            Err(e) => match e {
                crate::errors::JournalApplyError::ConflictingFiles(ids) => r matches
                    FlushStep::Recreate(out) && out == ids,
                crate::errors::JournalApplyError::MissingBlobs(_) => r matches FlushStep::Retry,
                crate::errors::JournalApplyError::InvalidJournal => r matches FlushStep::Fatal,
            },
        },
{
    match reply {
        Ok(data) => FlushStep::Reconcile(data),
        Err(crate::errors::JournalApplyError::ConflictingFiles(ids)) => FlushStep::Recreate(ids),
        Err(crate::errors::JournalApplyError::MissingBlobs(_)) => FlushStep::Retry,
        Err(crate::errors::JournalApplyError::InvalidJournal) => FlushStep::Fatal,
    }
}

impl OperationHandler for OffsFilesystem {
    open spec fn handler_inv(self) -> bool {
        self.inv()
    }

    /// The dispatcher leaves the transaction, the journal counter, the
    /// flags and the open-file table alone.
    open spec fn handler_frame(pre: Self, post: Self) -> bool {
        &&& post.store.inner.saved == pre.store.inner.saved
        &&& post.store.inner.tables.next_journal_seq == pre.store.inner.tables.next_journal_seq
        &&& post.model().journal == pre.model().journal
        &&& post.offline_mode == pre.offline_mode
        &&& post.should_flush_journal == pre.should_flush_journal
        &&& post.open_file_handler == pre.open_file_handler
    }

    /// An immediate application against the cache: the store-wrapper
    /// mutation with no version bumps, temporary ids naming creations.
    open spec fn perform_post(
        pre: Self,
        post: Self,
        id: Seq<char>,
        timestamp: Timespec,
        content: ModifyOperationContentView,
        r: OperationResult<Seq<char>>,
    ) -> bool {
        match content {
            ModifyOperationContentView::CreateFileOperation(o) => match r {
                Ok(rid) => {
                    &&& <LocalTempIdGenerator as IdGenerator>::gen_post(
                        pre.store.inner.id_generator,
                        post.store.inner.id_generator,
                        rid,
                    )
                    &&& !pre.model().files.contains_key(rid)
                    &&& post.model() == pre.model().with_files(
                        crate::wrapper::after_update_time(
                            pre.model().files.insert(
                                rid,
                                crate::store::new_entity_view(
                                    rid,
                                    crate::store::spec_create_parent(rid, id),
                                    o.name,
                                    o.file_type,
                                    o.perm,
                                    o.dev,
                                    timestamp,
                                ),
                            ),
                            id,
                            timestamp,
                            false,
                            true,
                            true,
                        ),
                    )
                },
                Err(e) => e.error_type == OperationErrorType::DatabaseError,
            },
            ModifyOperationContentView::CreateSymlinkOperation(o) => match r {
                Ok(rid) => {
                    &&& !pre.model().files.contains_key(rid)
                    &&& post.model().files.contains_key(rid)
                    &&& post.model().files[rid].stat.file_type == FileType::Symlink
                    &&& post.model().files[rid].stat.mode == 511
                    &&& post.model().files[rid].name == o.name
                    &&& post.model().files[rid].stat.size == vstd::utf8::encode_utf8(
                        o.link,
                    ).len()
                },
                Err(e) => e.error_type == OperationErrorType::DatabaseError || e.error_type
                    == OperationErrorType::FileDoesNotExist,
            },
            ModifyOperationContentView::CreateDirectoryOperation(o) => match r {
                Ok(rid) => {
                    &&& <LocalTempIdGenerator as IdGenerator>::gen_post(
                        pre.store.inner.id_generator,
                        post.store.inner.id_generator,
                        rid,
                    )
                    &&& !pre.model().files.contains_key(rid)
                    &&& post.model() == pre.model().with_files(
                        crate::wrapper::after_update_time(
                            pre.model().files.insert(
                                rid,
                                crate::store::new_entity_view(
                                    rid,
                                    crate::store::spec_create_parent(rid, id),
                                    o.name,
                                    FileType::Directory,
                                    o.perm,
                                    0,
                                    timestamp,
                                ),
                            ),
                            id,
                            timestamp,
                            false,
                            true,
                            true,
                        ),
                    )
                },
                Err(e) => e.error_type == OperationErrorType::DatabaseError,
            },
            ModifyOperationContentView::RemoveFileOperation(_) => match r {
                Ok(_) => {
                    &&& pre.model().files.contains_key(id)
                    &&& post.model() == pre.model().with_files(
                        crate::wrapper::after_update_time(
                            pre.model().files.remove(id),
                            pre.model().files[id].parent,
                            timestamp,
                            false,
                            true,
                            true,
                        ),
                    )
                },
                Err(e) => e.error_type == OperationErrorType::FileDoesNotExist
                    && !pre.model().files.contains_key(id) && post.model() == pre.model(),
            },
            ModifyOperationContentView::RemoveDirectoryOperation(_) => match r {
                Ok(_) => {
                    &&& pre.model().files.contains_key(id)
                    &&& post.model() == pre.model().with_files(
                        crate::wrapper::after_update_time(
                            pre.model().files.remove(id),
                            pre.model().files[id].parent,
                            timestamp,
                            false,
                            true,
                            true,
                        ),
                    )
                },
                Err(e) => e.error_type == OperationErrorType::FileDoesNotExist
                    && !pre.model().files.contains_key(id) && post.model() == pre.model(),
            },
            ModifyOperationContentView::RenameOperation(o) => match r {
                Ok(_) => pre.model().files.contains_key(id) && post.model().files.contains_key(
                    id,
                ) && post.model().files[id].parent == o.new_parent && post.model().files[id].name
                    == o.new_name,
                Err(e) => e.error_type == OperationErrorType::FileDoesNotExist || e.error_type
                    == OperationErrorType::DatabaseError,
            },
            ModifyOperationContentView::SetAttributesOperation(o) => match r {
                Ok(_) => {
                    &&& pre.model().files.contains_key(id)
                    &&& post.model().files == pre.model().files.insert(
                        id,
                        crate::store::apply_attrs_view(
                            pre.model().files[id],
                            o.perm,
                            o.size,
                            o.atim,
                            crate::wrapper::spec_setattr_mtim(o.mtim, o.size, timestamp),
                            crate::wrapper::spec_setattr_ctim(
                                o.perm,
                                o.uid,
                                o.gid,
                                o.size,
                                timestamp,
                            ),
                        ),
                    )
                    &&& (o.size is Some ==> crate::wrapper::chunk_count(post.model(), id)
                        == crate::wrapper::spec_chunk_count_for(o.size->0 as int))
                },
                Err(e) => e.error_type == OperationErrorType::FileDoesNotExist || e.error_type
                    == OperationErrorType::BlobDoesNotExist || e.error_type
                    == OperationErrorType::DatabaseError,
            },
            ModifyOperationContentView::WriteOperation(o) => match r {
                Ok(_) => {
                    &&& pre.model().files.contains_key(id)
                    &&& 0 <= o.offset
                    &&& o.data.len() > 0 ==> {
                        let b = crate::BLOB_SIZE as int;
                        let first = o.offset as int / b;
                        let last = (o.offset + o.data.len() - 1) / b;
                        &&& crate::wrapper::chunk_count(post.model(), id)
                            == crate::wrapper::max_int(
                            crate::wrapper::chunk_count(pre.model(), id),
                            last + 1,
                        )
                        &&& forall|c: int|
                            first <= c <= last ==> #[trigger] crate::wrapper::padded_chunk(
                                post.model(),
                                id,
                                c,
                            ) == crate::wrapper::overlay(
                                crate::wrapper::write_base(pre.model(), id, c),
                                o.offset - c * b,
                                o.data,
                            )
                        &&& post.model().files.contains_key(id)
                        &&& post.model().files[id].stat.size == crate::wrapper::max_int(
                            pre.model().files[id].stat.size as int,
                            o.offset + o.data.len(),
                        )
                    }
                },
                Err(e) => e.error_type == OperationErrorType::FileDoesNotExist || e.error_type
                    == OperationErrorType::DatabaseError,
            },
        }
    }

    /// The client never applies deferred operations; only the server
    /// replays journals.
    open spec fn deferred_post(
        pre: Self,
        post: Self,
        id: Seq<char>,
        timestamp: Timespec,
        dirent_version: i64,
        content_version: i64,
        content: ModifyOperationContentView,
        r: OperationResult<Seq<char>>,
    ) -> bool {
        post == pre && r is Err
    }

    fn perform_create_file(
        &mut self,
        parent_id: &str,
        timestamp: Timespec,
        operation: &crate::modify_op::CreateFileOperation,
    ) -> (r: OperationResult<String>) {
        if self.store.inner.id_generator.next_id == usize::MAX {
            return Err(
                OperationError::new(
                    OperationErrorType::DatabaseError,
                    String::from_str("temporary ids exhausted"),
                ),
            );
        }
        self.store.create_file(
            parent_id,
            timestamp,
            operation.name.as_str(),
            operation.file_type,
            operation.perm,
            operation.dev,
        )
    }

    fn perform_create_symlink(
        &mut self,
        parent_id: &str,
        timestamp: Timespec,
        operation: &crate::modify_op::CreateSymlinkOperation,
    ) -> (r: OperationResult<String>) {
        if self.store.inner.id_generator.next_id == usize::MAX {
            return Err(
                OperationError::new(
                    OperationErrorType::DatabaseError,
                    String::from_str("temporary ids exhausted"),
                ),
            );
        }
        let link_len = operation.link.as_str().as_bytes().len();
        proof {
            assert(link_len == vstd::utf8::encode_utf8(operation.link@).len());
        }
        if link_len > usize::MAX - crate::BLOB_SIZE {
            return Err(
                OperationError::new(
                    OperationErrorType::DatabaseError,
                    String::from_str("link target too long"),
                ),
            );
        }
        self.store.create_symlink(
            parent_id,
            timestamp,
            operation.name.as_str(),
            operation.link.as_str(),
        )
    }

    fn perform_create_directory(
        &mut self,
        parent_id: &str,
        timestamp: Timespec,
        operation: &crate::modify_op::CreateDirectoryOperation,
    ) -> (r: OperationResult<String>) {
        if self.store.inner.id_generator.next_id == usize::MAX {
            return Err(
                OperationError::new(
                    OperationErrorType::DatabaseError,
                    String::from_str("temporary ids exhausted"),
                ),
            );
        }
        self.store.create_directory(
            parent_id,
            timestamp,
            operation.name.as_str(),
            operation.perm,
        )
    }

    fn perform_remove_file(
        &mut self,
        id: &str,
        timestamp: Timespec,
        _operation: &crate::modify_op::RemoveFileOperation,
    ) -> (r: OperationResult<()>) {
        self.store.remove_file(id, timestamp)
    }

    fn perform_remove_directory(
        &mut self,
        id: &str,
        timestamp: Timespec,
        _operation: &crate::modify_op::RemoveDirectoryOperation,
    ) -> (r: OperationResult<()>) {
        self.store.remove_directory(id, timestamp)
    }

    fn perform_rename(
        &mut self,
        id: &str,
        timestamp: Timespec,
        operation: &crate::modify_op::RenameOperation,
    ) -> (r: OperationResult<()>) {
        let renamed = self.store.rename(
            id,
            timestamp,
            operation.new_parent.as_str(),
            operation.new_name.as_str(),
        );
        match renamed {
            Ok(_) => {
                proof {
                    crate::store::StoreTables::lemma_ids_consistent(old(self).store.inner.tables);
                }
                Ok(())
            },
            Err(e) => Err(e),
        }
    }

    fn perform_set_attributes(
        &mut self,
        id: &str,
        timestamp: Timespec,
        operation: &crate::modify_op::SetAttributesOperation,
    ) -> (r: OperationResult<()>) {
        match operation.size {
            Some(s) => {
                if s / (crate::BLOB_SIZE as u64) >= (usize::MAX - 1) as u64 {
                    return Err(
                        OperationError::new(
                            OperationErrorType::DatabaseError,
                            String::from_str("size out of range"),
                        ),
                    );
                }
            },
            None => {},
        }
        self.store.set_attributes(
            id,
            timestamp,
            operation.perm,
            operation.uid,
            operation.gid,
            operation.size,
            operation.atim,
            operation.mtim,
        )
    }

    fn perform_write(
        &mut self,
        id: &str,
        timestamp: Timespec,
        operation: &crate::modify_op::WriteOperation,
    ) -> (r: OperationResult<()>) {
        if operation.offset < 0 {
            return Err(
                OperationError::new(
                    OperationErrorType::DatabaseError,
                    String::from_str("negative write offset"),
                ),
            );
        }
        if operation.offset as u64 > (usize::MAX - crate::BLOB_SIZE) as u64 || operation.data.len()
            > usize::MAX - crate::BLOB_SIZE - (operation.offset as usize) {
            return Err(
                OperationError::new(
                    OperationErrorType::DatabaseError,
                    String::from_str("write out of range"),
                ),
            );
        }
        let written = self.store.write(
            id,
            timestamp,
            operation.offset as usize,
            operation.data.as_slice(),
        );
        match written {
            Ok(_) => Ok(()),
            Err(e) => Err(e),
        }
    }

    fn deferred_create_file(
        &mut self,
        _parent_id: &str,
        _timestamp: Timespec,
        _dirent_version: i64,
        _content_version: i64,
        _operation: &crate::modify_op::CreateFileOperation,
    ) -> (r: OperationResult<String>) {
        Err(
            OperationError::new(
                OperationErrorType::DatabaseError,
                String::from_str("deferred apply is a server operation"),
            ),
        )
    }

    fn deferred_create_symlink(
        &mut self,
        _parent_id: &str,
        _timestamp: Timespec,
        _dirent_version: i64,
        _content_version: i64,
        _operation: &crate::modify_op::CreateSymlinkOperation,
    ) -> (r: OperationResult<String>) {
        Err(
            OperationError::new(
                OperationErrorType::DatabaseError,
                String::from_str("deferred apply is a server operation"),
            ),
        )
    }

    fn deferred_create_directory(
        &mut self,
        _parent_id: &str,
        _timestamp: Timespec,
        _dirent_version: i64,
        _content_version: i64,
        _operation: &crate::modify_op::CreateDirectoryOperation,
    ) -> (r: OperationResult<String>) {
        Err(
            OperationError::new(
                OperationErrorType::DatabaseError,
                String::from_str("deferred apply is a server operation"),
            ),
        )
    }

    fn deferred_remove_file(
        &mut self,
        _id: &str,
        _timestamp: Timespec,
        _dirent_version: i64,
        _content_version: i64,
        _operation: &crate::modify_op::RemoveFileOperation,
    ) -> (r: OperationResult<()>) {
        Err(
            OperationError::new(
                OperationErrorType::DatabaseError,
                String::from_str("deferred apply is a server operation"),
            ),
        )
    }

    fn deferred_remove_directory(
        &mut self,
        _id: &str,
        _timestamp: Timespec,
        _dirent_version: i64,
        _content_version: i64,
        _operation: &crate::modify_op::RemoveDirectoryOperation,
    ) -> (r: OperationResult<()>) {
        Err(
            OperationError::new(
                OperationErrorType::DatabaseError,
                String::from_str("deferred apply is a server operation"),
            ),
        )
    }

    fn deferred_rename(
        &mut self,
        _id: &str,
        _timestamp: Timespec,
        _dirent_version: i64,
        _content_version: i64,
        _operation: &crate::modify_op::RenameOperation,
    ) -> (r: OperationResult<()>) {
        Err(
            OperationError::new(
                OperationErrorType::DatabaseError,
                String::from_str("deferred apply is a server operation"),
            ),
        )
    }

    fn deferred_set_attributes(
        &mut self,
        _id: &str,
        _timestamp: Timespec,
        _dirent_version: i64,
        _content_version: i64,
        _operation: &crate::modify_op::SetAttributesOperation,
    ) -> (r: OperationResult<()>) {
        Err(
            OperationError::new(
                OperationErrorType::DatabaseError,
                String::from_str("deferred apply is a server operation"),
            ),
        )
    }

    fn deferred_write(
        &mut self,
        _id: &str,
        _timestamp: Timespec,
        _dirent_version: i64,
        _content_version: i64,
        _operation: &crate::modify_op::WriteOperation,
    ) -> (r: OperationResult<()>) {
        Err(
            OperationError::new(
                OperationErrorType::DatabaseError,
                String::from_str("deferred apply is a server operation"),
            ),
        )
    }
}

} // verus!
