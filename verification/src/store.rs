//! The transactional entity store: directory entities, per-file chunk
//! lists, content-addressed blobs, and the client-side journal, held in
//! memory and reasoned about as finite maps.

use vstd::prelude::*;

use crate::assoc::{
    assoc_has, assoc_idx, assoc_map, assoc_wf, lemma_assoc_at, lemma_assoc_push,
    lemma_assoc_remove, lemma_assoc_update,
};
use crate::blob_id::{blob_id_of, hex_of, sha256_of, trim_zeros};
use crate::errors::{OperationError, OperationResult};
use crate::id_generator::IdGenerator;
use crate::types::{DirEntity, DirEntityView, FileDev, FileMode, FileStat, FileType};
use crate::timespec::Timespec;

verus! {

/// A copy of a vector of strings.
pub fn clone_string_vec(v: &Vec<String>) -> (r: Vec<String>)
    ensures
        r@.map_values(|s: String| s@) == v@.map_values(|s: String| s@),
        r@.len() == v@.len(),
{
    let mut r: Vec<String> = Vec::new();
    let mut i: usize = 0;
    while i < v.len()
        invariant
            i <= v@.len(),
            r@.len() == i,
            forall|j: int| 0 <= j < i ==> (#[trigger] r@[j])@ == v@[j]@,
        decreases v@.len() - i,
    {
        r.push(crate::clone_string(&v[i]));
        i = i + 1;
    }
    proof {
        assert(r@.map_values(|s: String| s@) =~= v@.map_values(|s: String| s@));
    }
    r
}

/// The mathematical value of one journal row.
pub struct JournalEntryView {
    pub seq: i64,
    pub file: Seq<char>,
    pub operation: Seq<u8>,
}

/// One journal row: a sequence number, the file the operation concerns,
/// and the operation in its wire encoding.
pub struct JournalEntry {
    pub seq: i64,
    pub file: String,
    pub operation: Vec<u8>,
}

impl View for JournalEntry {
    type V = JournalEntryView;

    open spec fn view(&self) -> JournalEntryView {
        JournalEntryView { seq: self.seq, file: self.file@, operation: self.operation@ }
    }
}

/// The mathematical value of the store: each table as a finite map, the
/// journal as a sequence.
#[verifier::ext_equal]
pub struct StoreModel {
    pub files: Map<Seq<char>, DirEntityView>,
    pub chunks: Map<Seq<char>, Seq<Seq<char>>>,
    pub blobs: Map<Seq<char>, Seq<u8>>,
    pub journal: Seq<JournalEntryView>,
}

/// No two entities share a parent and a name.
pub open spec fn pn_unique(m: Map<Seq<char>, DirEntityView>) -> bool {
    forall|k1: Seq<char>, k2: Seq<char>|
        m.contains_key(k1) && m.contains_key(k2) && k1 != k2 ==> !((#[trigger] m[k1]).parent == (
        #[trigger] m[k2]).parent && m[k1].name == m[k2].name)
}

/// Every blob row is content-addressed: the key is the digest of the
/// stored content, and the content is stored zero-trimmed.
pub open spec fn blobs_addressed(m: Map<Seq<char>, Seq<u8>>) -> bool {
    forall|k: Seq<char>|
        #[trigger] m.contains_key(k) ==> trim_zeros(m[k]) == m[k] && k == hex_of(
            sha256_of(m[k]),
        )
}

/// The store's tables. Transactions snapshot and restore a value of
/// this type.
pub struct StoreTables {
    pub files: Vec<DirEntity>,
    pub chunks: Vec<(String, Vec<String>)>,
    pub blobs: Vec<(String, Vec<u8>)>,
    pub journal: Vec<JournalEntry>,
    pub next_journal_seq: i64,
}

impl StoreTables {
    /// The file rows as key-value pairs.
    pub open spec fn files_assoc(self) -> Seq<(Seq<char>, DirEntityView)> {
        self.files@.map_values(|d: DirEntity| (d.id@, d@))
    }

    /// The chunk rows as key-value pairs.
    pub open spec fn chunks_assoc(self) -> Seq<(Seq<char>, Seq<Seq<char>>)> {
        self.chunks@.map_values(
            |p: (String, Vec<String>)| (p.0@, p.1@.map_values(|b: String| b@)),
        )
    }

    /// The blob rows as key-value pairs.
    pub open spec fn blobs_assoc(self) -> Seq<(Seq<char>, Seq<u8>)> {
        self.blobs@.map_values(|p: (String, Vec<u8>)| (p.0@, p.1@))
    }

    /// The tables' mathematical value.
    pub open spec fn model(self) -> StoreModel {
        StoreModel {
            files: assoc_map(self.files_assoc()),
            chunks: assoc_map(self.chunks_assoc()),
            blobs: assoc_map(self.blobs_assoc()),
            journal: self.journal@.map_values(|e: JournalEntry| e@),
        }
    }

    /// Table well-formedness: distinct keys in every table, no two
    /// entities sharing a parent and a name, content-addressed blobs,
    /// and journal rows in strictly increasing sequence order below the
    /// next sequence number.
    pub open spec fn wf(self) -> bool {
        &&& assoc_wf(self.files_assoc())
        &&& assoc_wf(self.chunks_assoc())
        &&& assoc_wf(self.blobs_assoc())
        &&& pn_unique(self.model().files)
        &&& blobs_addressed(self.model().blobs)
        &&& forall|i: int, j: int|
            0 <= i < j < self.journal@.len() ==> (#[trigger] self.journal@[i]).seq < (
            #[trigger] self.journal@[j]).seq
        &&& forall|i: int|
            0 <= i < self.journal@.len() ==> (#[trigger] self.journal@[i]).seq
                < self.next_journal_seq
        &&& self.next_journal_seq >= 1
    }

    /// Every entity is stored under its own id.
    pub proof fn lemma_ids_consistent(self)
        ensures
            forall|k: Seq<char>|
                #[trigger] self.model().files.contains_key(k) ==> self.model().files[k].id == k,
    {
        assert forall|k: Seq<char>|
            #[trigger] self.model().files.contains_key(k) implies self.model().files[k].id
            == k by {
        let s = self.files_assoc();
            let i = assoc_idx(s, k);
            assert(0 <= i < s.len() && s[i].0 == k);
            assert(s[i].1.id == s[i].0);
        }
    }

    pub fn new() -> (r: StoreTables)
        ensures
            r.wf(),
            r.model().files =~= Map::<Seq<char>, DirEntityView>::empty(),
            r.model().chunks =~= Map::<Seq<char>, Seq<Seq<char>>>::empty(),
            r.model().blobs =~= Map::<Seq<char>, Seq<u8>>::empty(),
            r.model().journal =~= Seq::<JournalEntryView>::empty(),
    {
        let r = StoreTables {
            files: Vec::new(),
            chunks: Vec::new(),
            blobs: Vec::new(),
            journal: Vec::new(),
            next_journal_seq: 1,
        };
        proof {
            assert(r.files_assoc() =~= Seq::<(Seq<char>, DirEntityView)>::empty());
            assert(r.chunks_assoc() =~= Seq::<(Seq<char>, Seq<Seq<char>>)>::empty());
            assert(r.blobs_assoc() =~= Seq::<(Seq<char>, Seq<u8>)>::empty());
        }
        r
    }

    /// A deep copy with the same mathematical value.
    pub fn duplicate(&self) -> (r: StoreTables)
        ensures
            r.model() == self.model(),
            r.files_assoc() == self.files_assoc(),
            r.chunks_assoc() == self.chunks_assoc(),
            r.blobs_assoc() == self.blobs_assoc(),
            r.next_journal_seq == self.next_journal_seq,
            r.journal@.map_values(|e: JournalEntry| e@) == self.journal@.map_values(
                |e: JournalEntry| e@,
            ),
            self.wf() ==> r.wf(),
    {
        let mut files: Vec<DirEntity> = Vec::new();
        let mut i: usize = 0;
        while i < self.files.len()
            invariant
                i <= self.files@.len(),
                files@.len() == i,
                forall|j: int| 0 <= j < i ==> (#[trigger] files@[j])@ == self.files@[j]@,
            decreases self.files@.len() - i,
        {
            let d = self.files[i].duplicate();
            files.push(d);
            i = i + 1;
        }
        let mut chunks: Vec<(String, Vec<String>)> = Vec::new();
        i = 0;
        while i < self.chunks.len()
            invariant
                i <= self.chunks@.len(),
                chunks@.len() == i,
                forall|j: int|
                    0 <= j < i ==> (#[trigger] chunks@[j]).0@ == self.chunks@[j].0@ && chunks@[j].1@.map_values(
                        |b: String| b@,
                    ) == self.chunks@[j].1@.map_values(|b: String| b@),
            decreases self.chunks@.len() - i,
        {
            let key = crate::clone_string(&self.chunks[i].0);
            let val = clone_string_vec(&self.chunks[i].1);
            chunks.push((key, val));
            i = i + 1;
        }
        let mut blobs: Vec<(String, Vec<u8>)> = Vec::new();
        i = 0;
        while i < self.blobs.len()
            invariant
                i <= self.blobs@.len(),
                blobs@.len() == i,
                forall|j: int|
                    0 <= j < i ==> (#[trigger] blobs@[j]).0@ == self.blobs@[j].0@ && blobs@[j].1@
                        == self.blobs@[j].1@,
            decreases self.blobs@.len() - i,
        {
            let key = crate::clone_string(&self.blobs[i].0);
            let val = crate::clone_bytes(&self.blobs[i].1);
            blobs.push((key, val));
            i = i + 1;
        }
        let mut journal: Vec<JournalEntry> = Vec::new();
        i = 0;
        while i < self.journal.len()
            invariant
                i <= self.journal@.len(),
                journal@.len() == i,
                forall|j: int| 0 <= j < i ==> (#[trigger] journal@[j])@ == self.journal@[j]@,
            decreases self.journal@.len() - i,
        {
            let e = &self.journal[i];
            journal.push(
                JournalEntry {
                    seq: e.seq,
                    file: crate::clone_string(&e.file),
                    operation: crate::clone_bytes(&e.operation),
                },
            );
            i = i + 1;
        }
        let r = StoreTables {
            files,
            chunks,
            blobs,
            journal,
            next_journal_seq: self.next_journal_seq,
        };
        proof {
            assert(r.files_assoc() =~= self.files_assoc());
            assert(r.chunks_assoc() =~= self.chunks_assoc());
            assert(r.blobs_assoc() =~= self.blobs_assoc());
            assert(r.journal@.map_values(|e: JournalEntry| e@) =~= self.journal@.map_values(
                |e: JournalEntry| e@,
            ));
            assert(r.model() =~= self.model());
            if self.wf() {
                assert(r.wf()) by {
                    assert(forall|j: int|
                        0 <= j < r.journal@.len() ==> (#[trigger] r.journal@[j]).seq
                            == self.journal@[j].seq);
                };
            }
        }
        r
    }
}

/// Whether some entity of the map sits at `(parent, name)`.
pub open spec fn has_by_name(
    m: Map<Seq<char>, DirEntityView>,
    parent: Seq<char>,
    name: Seq<char>,
) -> bool {
    exists|k: Seq<char>|
        #[trigger] m.contains_key(k) && m[k].parent == parent && m[k].name == name
}

impl StoreTables {
    /// The table position of an entity id.
    fn find_file_index(&self, id: &str) -> (r: Option<usize>)
        requires
            self.wf(),
        ensures
            match r {
                Some(i) => {
                    &&& i < self.files@.len()
                    &&& self.files@[i as int].id@ == id@
                    &&& assoc_idx(self.files_assoc(), id@) == i
                    &&& self.model().files.contains_key(id@)
                    &&& self.model().files[id@] == self.files@[i as int]@
                },
                None => !self.model().files.contains_key(id@),
            },
    {
        let mut i: usize = 0;
        while i < self.files.len()
            invariant
                i <= self.files@.len(),
                forall|j: int| 0 <= j < i ==> (#[trigger] self.files@[j]).id@ != id@,
            decreases self.files@.len() - i,
        {
            if crate::str_eq(self.files[i].id.as_str(), id) {
                proof {
                    assert(self.files_assoc()[i as int].0 == id@);
                    lemma_assoc_at(self.files_assoc(), i as int);
                }
                return Some(i);
            }
            i = i + 1;
        }
        proof {
            if assoc_has(self.files_assoc(), id@) {
                let k = assoc_idx(self.files_assoc(), id@);
                assert(self.files@[k].id@ == id@);
            }
        }
        None
    }

    /// The entity an id names, if any.
    pub fn query_file(&self, id: &str) -> (r: Option<DirEntity>)
        requires
            self.wf(),
        ensures
            match r {
                Some(d) => self.model().files.contains_key(id@) && d@ == self.model().files[id@],
                None => !self.model().files.contains_key(id@),
            },
    {
        match self.find_file_index(id) {
            Some(i) => Some(self.files[i].duplicate()),
            None => None,
        }
    }

    /// Whether an id names an entity.
    pub fn file_exists(&self, id: &str) -> (r: bool)
        requires
            self.wf(),
        ensures
            r == self.model().files.contains_key(id@),
    {
        match self.find_file_index(id) {
            Some(_) => true,
            None => false,
        }
    }

    /// The entity at `(parent, name)`, if any.
    pub fn query_file_by_name(&self, parent_id: &str, name: &str) -> (r: Option<DirEntity>)
        requires
            self.wf(),
        ensures
            match r {
                Some(d) => {
                    &&& self.model().files.contains_key(d@.id)
                    &&& d@ == self.model().files[d@.id]
                    &&& d@.parent == parent_id@
                    &&& d@.name == name@
                },
                None => !has_by_name(self.model().files, parent_id@, name@),
            },
    {
        let mut i: usize = 0;
        while i < self.files.len()
            invariant
                i <= self.files@.len(),
                forall|j: int|
                    0 <= j < i ==> !((#[trigger] self.files@[j]).parent@ == parent_id@
                        && self.files@[j].name@ == name@),
            decreases self.files@.len() - i,
        {
            if crate::str_eq(self.files[i].parent.as_str(), parent_id) && crate::str_eq(
                self.files[i].name.as_str(),
                name,
            ) {
                proof {
                    lemma_assoc_at(self.files_assoc(), i as int);
                }
                return Some(self.files[i].duplicate());
            }
            i = i + 1;
        }
        proof {
            if has_by_name(self.model().files, parent_id@, name@) {
                let k = choose|k: Seq<char>|
                    #[trigger] self.model().files.contains_key(k) && self.model().files[k].parent
                        == parent_id@ && self.model().files[k].name == name@;
                let j = assoc_idx(self.files_assoc(), k);
                assert(0 <= j < self.files_assoc().len() && self.files_assoc()[j].0 == k);
                assert(self.model().files[k] == self.files@[j]@);
                assert(self.files@[j].parent@ == parent_id@ && self.files@[j].name@ == name@);
            }
        }
        None
    }

    /// Whether an entity sits at `(parent, name)`.
    pub fn file_exists_by_name(&self, parent_id: &str, name: &str) -> (r: bool)
        requires
            self.wf(),
        ensures
            r == has_by_name(self.model().files, parent_id@, name@),
    {
        match self.query_file_by_name(parent_id, name) {
            Some(d) => {
                proof {
                    assert(has_by_name(self.model().files, parent_id@, name@));
                }
                true
            },
            None => false,
        }
    }

    /// Whether any entity lists `id` as its parent.
    pub fn any_child_exists(&self, id: &str) -> (r: bool)
        requires
            self.wf(),
        ensures
            r == exists|k: Seq<char>|
                #[trigger] self.model().files.contains_key(k) && self.model().files[k].parent
                    == id@,
    {
        let mut i: usize = 0;
        while i < self.files.len()
            invariant
                i <= self.files@.len(),
                forall|j: int| 0 <= j < i ==> (#[trigger] self.files@[j]).parent@ != id@,
            decreases self.files@.len() - i,
        {
            if crate::str_eq(self.files[i].parent.as_str(), id) {
                proof {
                    lemma_assoc_at(self.files_assoc(), i as int);
                    assert(self.model().files.contains_key(self.files@[i as int].id@)
                        && self.model().files[self.files@[i as int].id@].parent == id@);
                }
                return true;
            }
            i = i + 1;
        }
        proof {
            if exists|k: Seq<char>|
                #[trigger] self.model().files.contains_key(k) && self.model().files[k].parent
                    == id@ {
                let k = choose|k: Seq<char>|
                    #[trigger] self.model().files.contains_key(k) && self.model().files[k].parent
                        == id@;
                let j = assoc_idx(self.files_assoc(), k);
                assert(self.files@[j].parent@ == id@);
            }
        }
        false
    }

    /// The entities whose parent is `parent_id`, in table order.
    pub fn list_files(&self, parent_id: &str) -> (r: Vec<DirEntity>)
        requires
            self.wf(),
        ensures
            r@.map_values(|d: DirEntity| d@) == self.files@.map_values(|d: DirEntity| d@).filter(
                |d: DirEntityView| d.parent == parent_id@,
            ),
            forall|j: int|
                0 <= j < r@.len() ==> {
                    &&& (#[trigger] r@[j])@.parent == parent_id@
                    &&& self.model().files.contains_key(r@[j]@.id)
                    &&& self.model().files[r@[j]@.id] == r@[j]@
                },
            forall|k: Seq<char>|
                #[trigger] self.model().files.contains_key(k) && self.model().files[k].parent
                    == parent_id@ ==> exists|j: int| 0 <= j < r@.len() && (#[trigger] r@[j])@.id == k,
    {
        proof {
            reveal(Seq::filter);
        }
        let ghost pred = |d: DirEntityView| d.parent == parent_id@;
        let ghost all = self.files@.map_values(|d: DirEntity| d@);
        let mut r: Vec<DirEntity> = Vec::new();
        let mut i: usize = 0;
        proof {
            assert(all.subrange(0, 0).filter(pred) =~= Seq::<DirEntityView>::empty());
            assert(r@.map_values(|d: DirEntity| d@) =~= all.subrange(0, 0).filter(pred));
        }
        while i < self.files.len()
            invariant
                i <= self.files@.len(),
                all == self.files@.map_values(|d: DirEntity| d@),
                r@.map_values(|d: DirEntity| d@) == all.subrange(0, i as int).filter(pred),
            decreases self.files@.len() - i,
        {
            let ghost prefix = all.subrange(0, i as int);
            proof {
                assert(all.subrange(0, i + 1).drop_last() =~= prefix);
                assert(all.subrange(0, i + 1).last() == all[i as int]);
            }
            if crate::str_eq(self.files[i].parent.as_str(), parent_id) {
                let d = self.files[i].duplicate();
                r.push(d);
                proof {
                    assert(r@.map_values(|d: DirEntity| d@) =~= prefix.filter(pred).push(
                        all[i as int],
                    ));
                }
            }
            i = i + 1;
        }
        proof {
            assert(all.subrange(0, all.len() as int) =~= all);
            let rv = r@.map_values(|d: DirEntity| d@);
            assert forall|j: int| 0 <= j < r@.len() implies {
                &&& (#[trigger] r@[j])@.parent == parent_id@
                &&& self.model().files.contains_key(r@[j]@.id)
                &&& self.model().files[r@[j]@.id] == r@[j]@
            } by {
                Seq::lemma_filter_pred(all, pred, j);
                assert(rv[j] == r@[j]@);
                assert(all.filter(pred).contains(rv[j]));
                let p = choose|p: int| 0 <= p < all.len() && all[p] == rv[j];
                assert(all.filter(pred)[j] == rv[j]);
                lemma_filter_member_of(all, pred, j);
                let q = choose|q: int| 0 <= q < all.len() && all[q] == all.filter(pred)[j];
                assert(self.files@[q]@ == rv[j]);
                lemma_assoc_at(self.files_assoc(), q);
            };
            assert forall|k: Seq<char>|
                #[trigger] self.model().files.contains_key(k) && self.model().files[k].parent
                    == parent_id@ implies exists|j: int|
                0 <= j < r@.len() && (#[trigger] r@[j])@.id == k by {
                let p = assoc_idx(self.files_assoc(), k);
                assert(0 <= p < self.files@.len() && self.files@[p].id@ == k);
                lemma_assoc_at(self.files_assoc(), p);
                assert(all[p].parent == parent_id@);
                Seq::lemma_filter_contains(all, pred, p);
                assert(all.filter(pred).contains(all[p]));
                let j = choose|j: int|
                    0 <= j < all.filter(pred).len() && all.filter(pred)[j] == all[p];
                assert(r@[j]@ == all[p]);
                assert(r@[j]@.id == k);
            };
        }
        r
    }
}

impl StoreModel {
    /// The model with the file table replaced.
    pub open spec fn with_files(self, files: Map<Seq<char>, DirEntityView>) -> StoreModel {
        StoreModel { files, chunks: self.chunks, blobs: self.blobs, journal: self.journal }
    }

    /// The model with the chunk table replaced.
    pub open spec fn with_chunks(self, chunks: Map<Seq<char>, Seq<Seq<char>>>) -> StoreModel {
        StoreModel { files: self.files, chunks, blobs: self.blobs, journal: self.journal }
    }

    /// The model with the blob table replaced.
    pub open spec fn with_blobs(self, blobs: Map<Seq<char>, Seq<u8>>) -> StoreModel {
        StoreModel { files: self.files, chunks: self.chunks, blobs, journal: self.journal }
    }

    /// The model with the journal replaced.
    pub open spec fn with_journal(self, journal: Seq<JournalEntryView>) -> StoreModel {
        StoreModel { files: self.files, chunks: self.chunks, blobs: self.blobs, journal }
    }
}

/// The row of a freshly created entity: versions start at one, the size
/// at zero, and all three times at the creation time.
pub open spec fn new_entity_view(
    id: Seq<char>,
    parent: Seq<char>,
    name: Seq<char>,
    file_type: FileType,
    mode: FileMode,
    dev: FileDev,
    t: Timespec,
) -> DirEntityView {
    DirEntityView {
        id,
        parent,
        name,
        dirent_version: 1,
        content_version: 1,
        retrieved_version: 0,
        stat: FileStat {
            file_type,
            mode,
            dev,
            nlink: 2,
            uid: 1000,
            gid: 1000,
            size: 0,
            blocks: 1,
            atim: t,
            mtim: t,
            ctim: t,
        },
    }
}

/// An entity row updated by a set-attributes call: each present field
/// replaces the stored one; the owner fields are accepted and left
/// unchanged, as the schema keeps no per-entity owner.
pub open spec fn apply_attrs_view(
    d: DirEntityView,
    mode: Option<FileMode>,
    size: Option<u64>,
    atim: Option<Timespec>,
    mtim: Option<Timespec>,
    ctim: Option<Timespec>,
) -> DirEntityView {
    DirEntityView {
        stat: FileStat {
            mode: if mode is Some {
                mode->0
            } else {
                d.stat.mode
            },
            size: if size is Some {
                size->0
            } else {
                d.stat.size
            },
            atim: if atim is Some {
                atim->0
            } else {
                d.stat.atim
            },
            mtim: if mtim is Some {
                mtim->0
            } else {
                d.stat.mtim
            },
            ctim: if ctim is Some {
                ctim->0
            } else {
                d.stat.ctim
            },
            ..d.stat
        },
        ..d
    }
}

/// A version counter bumped by one, held at the top of its range.
pub open spec fn bump(v: i64) -> i64 {
    if v < i64::MAX {
        (v + 1) as i64
    } else {
        v
    }
}

impl StoreTables {
    /// Replaces the entity row at a position, keeping its id. The caller
    /// has checked that the replacement keeps parent-name uniqueness.
    fn put_entity_at(&mut self, i: usize, d: DirEntity)
        requires
            old(self).wf(),
            i < old(self).files@.len(),
            d@.id == old(self).files@[i as int].id@,
            pn_unique(old(self).model().files.insert(d@.id, d@)),
        ensures
            final(self).wf(),
            final(self).model() == old(self).model().with_files(
                old(self).model().files.insert(d@.id, d@),
            ),
            final(self).next_journal_seq == old(self).next_journal_seq,
    {
        let ghost pre = self.files_assoc();
        let ghost dv = d@;
        let _removed = self.files.remove(i);
        self.files.insert(i, d);
        proof {
            assert(self.files_assoc() =~= pre.update(i as int, (pre[i as int].0, dv)));
            lemma_assoc_update(pre, i as int, dv);
            assert(pre[i as int].0 == dv.id);
            assert(self.model() =~= old(self).model().with_files(
                old(self).model().files.insert(dv.id, dv),
            ));
        }
    }
}

/// Inserting a row whose place is free keeps parent-name uniqueness.
pub proof fn lemma_pn_insert(m: Map<Seq<char>, DirEntityView>, k: Seq<char>, d: DirEntityView)
    requires
        pn_unique(m),
        forall|k2: Seq<char>|
            #[trigger] m.contains_key(k2) && k2 != k ==> !(m[k2].parent == d.parent && m[k2].name
                == d.name),
    ensures
        pn_unique(m.insert(k, d)),
{
    let m2 = m.insert(k, d);
    assert forall|k1: Seq<char>, k2: Seq<char>|
        m2.contains_key(k1) && m2.contains_key(k2) && k1 != k2 implies !((#[trigger] m2[k1]).parent
        == (#[trigger] m2[k2]).parent && m2[k1].name == m2[k2].name) by {
        if k1 != k && k2 != k {
            assert(m2[k1] == m[k1] && m2[k2] == m[k2]);
        } else if k1 == k {
            assert(m2[k2] == m[k2] && m2[k1] == d);
        } else {
            assert(m2[k1] == m[k1] && m2[k2] == d);
        }
    };
}

/// Removing a row keeps parent-name uniqueness.
pub proof fn lemma_pn_remove(m: Map<Seq<char>, DirEntityView>, k: Seq<char>)
    requires
        pn_unique(m),
    ensures
        pn_unique(m.remove(k)),
{
    let m2 = m.remove(k);
    assert forall|k1: Seq<char>, k2: Seq<char>|
        m2.contains_key(k1) && m2.contains_key(k2) && k1 != k2 implies !((#[trigger] m2[k1]).parent
        == (#[trigger] m2[k2]).parent && m2[k1].name == m2[k2].name) by {
        assert(m2[k1] == m[k1] && m2[k2] == m[k2]);
    };
}

impl StoreTables {
    /// Whether an entity other than `id` sits at `(parent, name)`.
    fn other_at_name_exists(&self, id: &str, parent: &str, name: &str) -> (r: bool)
        requires
            self.wf(),
        ensures
            r == exists|k: Seq<char>|
                #[trigger] self.model().files.contains_key(k) && k != id@
                    && self.model().files[k].parent == parent@ && self.model().files[k].name
                    == name@,
    {
        let mut i: usize = 0;
        while i < self.files.len()
            invariant
                i <= self.files@.len(),
                forall|j: int|
                    0 <= j < i ==> !((#[trigger] self.files@[j]).id@ != id@
                        && self.files@[j].parent@ == parent@ && self.files@[j].name@ == name@),
            decreases self.files@.len() - i,
        {
            if !crate::str_eq(self.files[i].id.as_str(), id) && crate::str_eq(
                self.files[i].parent.as_str(),
                parent,
            ) && crate::str_eq(self.files[i].name.as_str(), name) {
                proof {
                    lemma_assoc_at(self.files_assoc(), i as int);
                }
                return true;
            }
            i = i + 1;
        }
        proof {
            if exists|k: Seq<char>|
                #[trigger] self.model().files.contains_key(k) && k != id@
                    && self.model().files[k].parent == parent@ && self.model().files[k].name
                    == name@ {
                let k = choose|k: Seq<char>|
                    #[trigger] self.model().files.contains_key(k) && k != id@
                        && self.model().files[k].parent == parent@ && self.model().files[k].name
                        == name@;
                let j = assoc_idx(self.files_assoc(), k);
                assert(self.files@[j].id@ == k);
            }
        }
        false
    }

    /// Inserts a brand-new entity row. Fails, leaving the store
    /// unchanged, iff the id or the `(parent, name)` place is taken.
    pub fn insert_entity(&mut self, d: DirEntity) -> (r: OperationResult<()>)
        requires
            old(self).wf(),
        ensures
            final(self).wf(),
            final(self).next_journal_seq == old(self).next_journal_seq,
            match r {
                Ok(_) => {
                    &&& !old(self).model().files.contains_key(d@.id)
                    &&& !has_by_name(old(self).model().files, d@.parent, d@.name)
                    &&& final(self).model() == old(self).model().with_files(
                        old(self).model().files.insert(d@.id, d@),
                    )
                },
                Err(e) => {
                    &&& *final(self) == *old(self)
                    &&& e.error_type == crate::errors::OperationErrorType::DatabaseError
                    &&& (old(self).model().files.contains_key(d@.id) || has_by_name(
                        old(self).model().files,
                        d@.parent,
                        d@.name,
                    ))
                },
            },
    {
        if self.file_exists(d.id.as_str()) {
            return Err(
                OperationError::new(
                    crate::errors::OperationErrorType::DatabaseError,
                    String::from_str("entity id already present"),
                ),
            );
        }
        if self.file_exists_by_name(d.parent.as_str(), d.name.as_str()) {
            return Err(
                OperationError::new(
                    crate::errors::OperationErrorType::DatabaseError,
                    String::from_str("directory entry already present"),
                ),
            );
        }
        let ghost pre = self.files_assoc();
        let ghost dv = d@;
        self.files.push(d);
        proof {
            assert(self.files_assoc() =~= pre.push((dv.id, dv)));
            lemma_assoc_push(pre, dv.id, dv);
            lemma_pn_insert(old(self).model().files, dv.id, dv);
            assert(self.model() =~= old(self).model().with_files(
                old(self).model().files.insert(dv.id, dv),
            ));
        }
        Ok(())
    }

    /// Inserts an entity row, or replaces the row of the same id. On a
    /// replace the client's retrieved-version watermark is kept, held
    /// down to the new content version; on an insert it starts at zero.
    /// Fails, leaving the store unchanged, iff another id holds the
    /// entity's `(parent, name)` place.
    pub fn add_or_replace_dirent(&mut self, dirent: &DirEntity) -> (r: OperationResult<()>)
        requires
            old(self).wf(),
        ensures
            final(self).wf(),
            final(self).next_journal_seq == old(self).next_journal_seq,
            match r {
                Ok(_) => {
                    &&& !(exists|k: Seq<char>|
                        #[trigger] old(self).model().files.contains_key(k) && k != dirent@.id
                            && old(self).model().files[k].parent == dirent@.parent && old(
                            self,
                        ).model().files[k].name == dirent@.name)
                    &&& final(self).model() == old(self).model().with_files(
                        old(self).model().files.insert(
                            dirent@.id,
                            stored_dirent_view(old(self).model().files, dirent@),
                        ),
                    )
                },
                Err(e) => {
                    &&& *final(self) == *old(self)
                    &&& e.error_type == crate::errors::OperationErrorType::DatabaseError
                    &&& exists|k: Seq<char>|
                        #[trigger] old(self).model().files.contains_key(k) && k != dirent@.id
                            && old(self).model().files[k].parent == dirent@.parent && old(
                            self,
                        ).model().files[k].name == dirent@.name
                },
            },
    {
        if self.other_at_name_exists(
            dirent.id.as_str(),
            dirent.parent.as_str(),
            dirent.name.as_str(),
        ) {
            return Err(
                OperationError::new(
                    crate::errors::OperationErrorType::DatabaseError,
                    String::from_str("directory entry already present"),
                ),
            );
        }
        let ghost dv = dirent@;
        let ghost target = stored_dirent_view(self.model().files, dv);
        match self.find_file_index(dirent.id.as_str()) {
            Some(i) => {
                let mut d = dirent.duplicate();
                let stored_retrieved = self.files[i].retrieved_version;
                if stored_retrieved < d.content_version {
                    d.retrieved_version = stored_retrieved;
                } else {
                    d.retrieved_version = d.content_version;
                }
                proof {
                    assert(d@ == target);
                    lemma_pn_insert(old(self).model().files, dv.id, target);
                }
                self.put_entity_at(i, d);
            },
            None => {
                let mut d = dirent.duplicate();
                d.retrieved_version = 0;
                let ghost pre = self.files_assoc();
                proof {
                    assert(d@ == target);
                }
                self.files.push(d);
                proof {
                    assert(self.files_assoc() =~= pre.push((dv.id, target)));
                    lemma_assoc_push(pre, dv.id, target);
                    lemma_pn_insert(old(self).model().files, dv.id, target);
                    assert(self.model() =~= old(self).model().with_files(
                        old(self).model().files.insert(dv.id, target),
                    ));
                }
            },
        }
        Ok(())
    }

    /// Deletes the entity row of an id; missing ids are left alone.
    fn remove_entity(&mut self, id: &str)
        requires
            old(self).wf(),
        ensures
            final(self).wf(),
            final(self).next_journal_seq == old(self).next_journal_seq,
            final(self).model() == old(self).model().with_files(
                old(self).model().files.remove(id@),
            ),
    {
        match self.find_file_index(id) {
            Some(i) => {
                let ghost pre = self.files_assoc();
                self.files.remove(i);
                proof {
                    assert(self.files_assoc() =~= pre.remove(i as int));
                    lemma_assoc_remove(pre, i as int);
                    lemma_pn_remove(old(self).model().files, id@);
                    assert(self.model() =~= old(self).model().with_files(
                        old(self).model().files.remove(id@),
                    ));
                }
            },
            None => {
                proof {
                    assert(old(self).model().files.remove(id@) =~= old(self).model().files);
                    assert(self.model() =~= old(self).model().with_files(
                        old(self).model().files.remove(id@),
                    ));
                }
            },
        }
    }

    /// Deletes a file's entity row.
    pub fn remove_file(&mut self, id: &str)
        requires
            old(self).wf(),
        ensures
            final(self).wf(),
            final(self).next_journal_seq == old(self).next_journal_seq,
            final(self).model() == old(self).model().with_files(
                old(self).model().files.remove(id@),
            ),
    {
        self.remove_entity(id);
    }

    /// Deletes a directory's entity row.
    pub fn remove_directory(&mut self, id: &str)
        requires
            old(self).wf(),
        ensures
            final(self).wf(),
            final(self).next_journal_seq == old(self).next_journal_seq,
            final(self).model() == old(self).model().with_files(
                old(self).model().files.remove(id@),
            ),
    {
        self.remove_entity(id);
    }

    /// Applies a set-attributes update to an entity row: each present
    /// field replaces the stored one. The owner fields are accepted and
    /// ignored, as the schema keeps no per-entity owner. Missing ids are
    /// left alone.
    pub fn set_attributes(
        &mut self,
        id: &str,
        mode: Option<FileMode>,
        _uid: Option<u32>,
        _gid: Option<u32>,
        size: Option<u64>,
        atim: Option<Timespec>,
        mtim: Option<Timespec>,
        ctim: Option<Timespec>,
    )
        requires
            old(self).wf(),
        ensures
            final(self).wf(),
            final(self).next_journal_seq == old(self).next_journal_seq,
            old(self).model().files.contains_key(id@) ==> final(self).model() == old(
                self,
            ).model().with_files(
                old(self).model().files.insert(
                    id@,
                    apply_attrs_view(old(self).model().files[id@], mode, size, atim, mtim, ctim),
                ),
            ),
            !old(self).model().files.contains_key(id@) ==> final(self).model() == old(
                self,
            ).model(),
    {
        match self.find_file_index(id) {
            Some(i) => {
                let mut d = self.files[i].duplicate();
                let ghost target = apply_attrs_view(
                    old(self).model().files[id@],
                    mode,
                    size,
                    atim,
                    mtim,
                    ctim,
                );
                match mode {
                    Some(v) => {
                        d.stat.mode = v;
                    },
                    None => {},
                }
                match size {
                    Some(v) => {
                        d.stat.size = v;
                    },
                    None => {},
                }
                match atim {
                    Some(v) => {
                        d.stat.atim = v;
                    },
                    None => {},
                }
                match mtim {
                    Some(v) => {
                        d.stat.mtim = v;
                    },
                    None => {},
                }
                match ctim {
                    Some(v) => {
                        d.stat.ctim = v;
                    },
                    None => {},
                }
                proof {
                    assert(d@ == target);
                    assert forall|k2: Seq<char>|
                        #[trigger] old(self).model().files.contains_key(k2) && k2 != id@ implies !(
                    old(self).model().files[k2].parent == target.parent && old(
                        self,
                    ).model().files[k2].name == target.name) by {
                        assert(old(self).model().files.contains_key(id@));
                    };
                    lemma_pn_insert(old(self).model().files, id@, target);
                }
                self.put_entity_at(i, d);
            },
            None => {},
        }
    }

    /// Records a file's logical size. Missing ids are left alone.
    pub fn resize_file(&mut self, id: &str, size: u64)
        requires
            old(self).wf(),
        ensures
            final(self).wf(),
            final(self).next_journal_seq == old(self).next_journal_seq,
            old(self).model().files.contains_key(id@) ==> final(self).model() == old(
                self,
            ).model().with_files(
                old(self).model().files.insert(
                    id@,
                    apply_attrs_view(
                        old(self).model().files[id@],
                        None,
                        Some(size),
                        None,
                        None,
                        None,
                    ),
                ),
            ),
            !old(self).model().files.contains_key(id@) ==> final(self).model() == old(
                self,
            ).model(),
    {
        self.set_attributes(id, None, None, None, Some(size), None, None, None);
    }
}

/// The row an upsert stores: on a replace the retrieved-version
/// watermark is kept, held down to the new content version; on an
/// insert it starts at zero.
pub open spec fn stored_dirent_view(
    m: Map<Seq<char>, DirEntityView>,
    d: DirEntityView,
) -> DirEntityView {
    if m.contains_key(d.id) {
        DirEntityView {
            retrieved_version: if m[d.id].retrieved_version < d.content_version {
                m[d.id].retrieved_version
            } else {
                d.content_version
            },
            ..d
        }
    } else {
        DirEntityView { retrieved_version: 0, ..d }
    }
}

impl StoreTables {
    /// Moves an entity to a new parent and name. Fails, leaving the
    /// store unchanged, iff another id holds the target place; a missing
    /// id leaves the store unchanged and succeeds.
    pub fn rename(&mut self, id: &str, new_parent: &str, new_name: &str) -> (r: OperationResult<
        (),
    >)
        requires
            old(self).wf(),
        ensures
            final(self).wf(),
            final(self).next_journal_seq == old(self).next_journal_seq,
            match r {
                Ok(_) => {
                    &&& !(exists|k: Seq<char>|
                        #[trigger] old(self).model().files.contains_key(k) && k != id@ && old(
                            self,
                        ).model().files[k].parent == new_parent@ && old(self).model().files[k].name
                            == new_name@)
                    &&& old(self).model().files.contains_key(id@) ==> final(self).model() == old(
                        self,
                    ).model().with_files(
                        old(self).model().files.insert(
                            id@,
                            DirEntityView {
                                parent: new_parent@,
                                name: new_name@,
                                ..old(self).model().files[id@]
                            },
                        ),
                    )
                    &&& !old(self).model().files.contains_key(id@) ==> final(self).model() == old(
                        self,
                    ).model()
                },
                Err(e) => {
                    &&& *final(self) == *old(self)
                    &&& e.error_type == crate::errors::OperationErrorType::DatabaseError
                },
            },
    {
        if self.other_at_name_exists(id, new_parent, new_name) {
            return Err(
                OperationError::new(
                    crate::errors::OperationErrorType::DatabaseError,
                    String::from_str("directory entry already present"),
                ),
            );
        }
        match self.find_file_index(id) {
            Some(i) => {
                let mut d = self.files[i].duplicate();
                d.parent = String::from_str(new_parent);
                d.name = String::from_str(new_name);
                let ghost target = DirEntityView {
                    parent: new_parent@,
                    name: new_name@,
                    ..old(self).model().files[id@]
                };
                proof {
                    assert(d@ == target);
                    lemma_pn_insert(old(self).model().files, id@, target);
                }
                self.put_entity_at(i, d);
            },
            None => {},
        }
        Ok(())
    }

    /// Rewrites an entity's id, in its entity row and its chunk row.
    /// Fails, leaving the store unchanged, iff the new id is already
    /// taken; a missing old id leaves the store unchanged and succeeds.
    pub fn change_id(&mut self, old_id: &str, new_id: &str) -> (r: OperationResult<()>)
        requires
            old(self).wf(),
        ensures
            final(self).wf(),
            final(self).next_journal_seq == old(self).next_journal_seq,
            match r {
                Ok(_) => {
                    &&& (!old(self).model().files.contains_key(new_id@) && !old(
                        self,
                    ).model().chunks.contains_key(new_id@)) || old_id@ == new_id@
                    &&& old(self).model().files.contains_key(old_id@) && old_id@ != new_id@
                        ==> final(self).model() == old(self).model().with_files(
                        old(self).model().files.remove(old_id@).insert(
                            new_id@,
                            DirEntityView { id: new_id@, ..old(self).model().files[old_id@] },
                        ),
                    ).with_chunks(
                        if old(self).model().chunks.contains_key(old_id@) {
                            old(self).model().chunks.remove(old_id@).insert(
                                new_id@,
                                old(self).model().chunks[old_id@],
                            )
                        } else {
                            old(self).model().chunks
                        },
                    )
                    &&& !old(self).model().files.contains_key(old_id@) || old_id@ == new_id@
                        ==> final(self).model() == old(self).model()
                },
                Err(e) => {
                    &&& *final(self) == *old(self)
                    &&& e.error_type == crate::errors::OperationErrorType::DatabaseError
                    &&& (old(self).model().files.contains_key(new_id@) || old(
                        self,
                    ).model().chunks.contains_key(new_id@)) && old_id@ != new_id@
                },
            },
    {
        if crate::str_eq(old_id, new_id) {
            return Ok(());
        }
        if self.file_exists(new_id) {
            return Err(
                OperationError::new(
                    crate::errors::OperationErrorType::DatabaseError,
                    String::from_str("entity id already present"),
                ),
            );
        }
        match self.find_chunk_index(new_id) {
            Some(_) => {
                return Err(
                    OperationError::new(
                        crate::errors::OperationErrorType::DatabaseError,
                        String::from_str("chunk rows already present for the id"),
                    ),
                );
            },
            None => {},
        }
        match self.find_file_index(old_id) {
            Some(i) => {
                let mut d = self.files[i].duplicate();
                d.id = String::from_str(new_id);
                let ghost target = DirEntityView {
                    id: new_id@,
                    ..old(self).model().files[old_id@]
                };
                let ghost pre = self.files_assoc();
                self.files.remove(i);
                proof {
                    assert(self.files_assoc() =~= pre.remove(i as int));
                    lemma_assoc_remove(pre, i as int);
                    lemma_pn_remove(old(self).model().files, old_id@);
                }
                let ghost mid = self.files_assoc();
                self.files.push(d);
                proof {
                    assert(d@ == target);
                    assert(self.files_assoc() =~= mid.push((new_id@, target)));
                    assert(!assoc_has(mid, new_id@)) by {
                        if assoc_has(mid, new_id@) {
                            assert(assoc_map(mid).contains_key(new_id@));
                        }
                    };
                    lemma_assoc_push(mid, new_id@, target);
                    assert forall|k2: Seq<char>|
                        #[trigger] old(self).model().files.remove(old_id@).contains_key(k2) && k2
                            != new_id@ implies !(old(self).model().files.remove(old_id@)[k2].parent
                        == target.parent && old(self).model().files.remove(old_id@)[k2].name
                        == target.name) by {
                        assert(old(self).model().files.contains_key(k2) && k2 != old_id@);
                        assert(old(self).model().files.contains_key(old_id@));
                    };
                    lemma_pn_insert(old(self).model().files.remove(old_id@), new_id@, target);
                }
                // Carry the chunk rows over to the new id.
                let chunk_index = self.find_chunk_index(old_id);
                match chunk_index {
                    Some(ci) => {
                        let ghost cpre = self.chunks_assoc();
                        let mut row = self.chunks.remove(ci);
                        proof {
                            assert(self.chunks_assoc() =~= cpre.remove(ci as int));
                            lemma_assoc_remove(cpre, ci as int);
                        }
                        let ghost cmid = self.chunks_assoc();
                        row.0 = String::from_str(new_id);
                        let ghost rowv = row.1@.map_values(|b: String| b@);
                        self.chunks.push(row);
                        proof {
                            assert(self.chunks_assoc() =~= cmid.push((new_id@, rowv)));
                            assert(!assoc_has(cmid, new_id@)) by {
                                if assoc_has(cmid, new_id@) {
                                    assert(assoc_map(cmid).contains_key(new_id@));
                                    assert(old(self).model().chunks.contains_key(new_id@));
                                }
                            };
                            lemma_assoc_push(cmid, new_id@, rowv);
                            assert(rowv == old(self).model().chunks[old_id@]);
                            assert(self.model() =~= old(self).model().with_files(
                                old(self).model().files.remove(old_id@).insert(new_id@, target),
                            ).with_chunks(
                                old(self).model().chunks.remove(old_id@).insert(
                                    new_id@,
                                    old(self).model().chunks[old_id@],
                                ),
                            ));
                        }
                    },
                    None => {
                        proof {
                            assert(self.model() =~= old(self).model().with_files(
                                old(self).model().files.remove(old_id@).insert(new_id@, target),
                            ));
                        }
                    },
                }
            },
            None => {},
        }
        Ok(())
    }

    /// The table position of a file's chunk row.
    fn find_chunk_index(&self, id: &str) -> (r: Option<usize>)
        requires
            self.wf(),
        ensures
            match r {
                Some(i) => {
                    &&& i < self.chunks@.len()
                    &&& self.chunks@[i as int].0@ == id@
                    &&& assoc_idx(self.chunks_assoc(), id@) == i
                    &&& self.model().chunks.contains_key(id@)
                    &&& self.model().chunks[id@] == self.chunks@[i as int].1@.map_values(
                        |b: String| b@,
                    )
                },
                None => !self.model().chunks.contains_key(id@),
            },
    {
        let mut i: usize = 0;
        while i < self.chunks.len()
            invariant
                i <= self.chunks@.len(),
                forall|j: int| 0 <= j < i ==> (#[trigger] self.chunks@[j]).0@ != id@,
            decreases self.chunks@.len() - i,
        {
            if crate::str_eq(self.chunks[i].0.as_str(), id) {
                proof {
                    assert(self.chunks_assoc()[i as int].0 == id@);
                    lemma_assoc_at(self.chunks_assoc(), i as int);
                }
                return Some(i);
            }
            i = i + 1;
        }
        proof {
            if assoc_has(self.chunks_assoc(), id@) {
                let k = assoc_idx(self.chunks_assoc(), id@);
                assert(self.chunks@[k].0@ == id@);
            }
        }
        None
    }

    /// Marks an entity's cached content as fully synchronized: the
    /// retrieved version becomes the content version. Missing ids are
    /// left alone.
    pub fn update_retrieved_version(&mut self, id: &str)
        requires
            old(self).wf(),
        ensures
            final(self).wf(),
            final(self).next_journal_seq == old(self).next_journal_seq,
            old(self).model().files.contains_key(id@) ==> final(self).model() == old(
                self,
            ).model().with_files(
                old(self).model().files.insert(
                    id@,
                    DirEntityView {
                        retrieved_version: old(self).model().files[id@].content_version,
                        ..old(self).model().files[id@]
                    },
                ),
            ),
            !old(self).model().files.contains_key(id@) ==> final(self).model() == old(
                self,
            ).model(),
    {
        match self.find_file_index(id) {
            Some(i) => {
                let mut d = self.files[i].duplicate();
                d.retrieved_version = d.content_version;
                let ghost target = DirEntityView {
                    retrieved_version: old(self).model().files[id@].content_version,
                    ..old(self).model().files[id@]
                };
                proof {
                    assert(d@ == target);
                    lemma_pn_insert(old(self).model().files, id@, target);
                }
                self.put_entity_at(i, d);
            },
            None => {},
        }
    }

    /// Bumps an entity's dirent version by one, held at the top of its
    /// range. Missing ids are left alone.
    pub fn increment_dirent_version(&mut self, id: &str)
        requires
            old(self).wf(),
        ensures
            final(self).wf(),
            final(self).next_journal_seq == old(self).next_journal_seq,
            old(self).model().files.contains_key(id@) ==> final(self).model() == old(
                self,
            ).model().with_files(
                old(self).model().files.insert(
                    id@,
                    DirEntityView {
                        dirent_version: bump(old(self).model().files[id@].dirent_version),
                        ..old(self).model().files[id@]
                    },
                ),
            ),
            !old(self).model().files.contains_key(id@) ==> final(self).model() == old(
                self,
            ).model(),
    {
        match self.find_file_index(id) {
            Some(i) => {
                let mut d = self.files[i].duplicate();
                if d.dirent_version < i64::MAX {
                    d.dirent_version = d.dirent_version + 1;
                }
                let ghost target = DirEntityView {
                    dirent_version: bump(old(self).model().files[id@].dirent_version),
                    ..old(self).model().files[id@]
                };
                proof {
                    assert(d@ == target);
                    lemma_pn_insert(old(self).model().files, id@, target);
                }
                self.put_entity_at(i, d);
            },
            None => {},
        }
    }

    /// Bumps an entity's content version, and with it the dirent
    /// version, by one each, held at the top of their range. Missing
    /// ids are left alone.
    pub fn increment_content_version(&mut self, id: &str)
        requires
            old(self).wf(),
        ensures
            final(self).wf(),
            final(self).next_journal_seq == old(self).next_journal_seq,
            old(self).model().files.contains_key(id@) ==> final(self).model() == old(
                self,
            ).model().with_files(
                old(self).model().files.insert(
                    id@,
                    DirEntityView {
                        dirent_version: bump(old(self).model().files[id@].dirent_version),
                        content_version: bump(old(self).model().files[id@].content_version),
                        ..old(self).model().files[id@]
                    },
                ),
            ),
            !old(self).model().files.contains_key(id@) ==> final(self).model() == old(
                self,
            ).model(),
    {
        match self.find_file_index(id) {
            Some(i) => {
                let mut d = self.files[i].duplicate();
                if d.dirent_version < i64::MAX {
                    d.dirent_version = d.dirent_version + 1;
                }
                if d.content_version < i64::MAX {
                    d.content_version = d.content_version + 1;
                }
                let ghost target = DirEntityView {
                    dirent_version: bump(old(self).model().files[id@].dirent_version),
                    content_version: bump(old(self).model().files[id@].content_version),
                    ..old(self).model().files[id@]
                };
                proof {
                    assert(d@ == target);
                    lemma_pn_insert(old(self).model().files, id@, target);
                }
                self.put_entity_at(i, d);
            },
            None => {},
        }
    }
}

/// The length of a chunk list truncated to `from` entries: a list
/// already shorter is left whole.
pub open spec fn truncated_len(len: int, from: int) -> int {
    if from <= len {
        from
    } else {
        len
    }
}

/// A file's chunk list after chunk `index` is bound to `blob`: the index
/// either replaces an existing chunk or extends the list by one.
pub open spec fn chunk_list_after_replace(
    m: Map<Seq<char>, Seq<Seq<char>>>,
    id: Seq<char>,
    index: int,
    blob: Seq<char>,
) -> Seq<Seq<char>> {
    let cur = if m.contains_key(id) {
        m[id]
    } else {
        Seq::<Seq<char>>::empty()
    };
    if index < cur.len() {
        cur.update(index, blob)
    } else {
        cur.push(blob)
    }
}

/// The blob rows present in the store among the requested ids, in
/// request order.
pub open spec fn present_pairs(m: Map<Seq<char>, Seq<u8>>, ids: Seq<Seq<char>>) -> Seq<
    (Seq<char>, Seq<u8>),
> {
    ids.filter(|k: Seq<char>| m.contains_key(k)).map_values(|k: Seq<char>| (k, m[k]))
}

impl StoreTables {
    /// The table position of a blob id.
    fn find_blob_index(&self, id: &str) -> (r: Option<usize>)
        requires
            self.wf(),
        ensures
            match r {
                Some(i) => {
                    &&& i < self.blobs@.len()
                    &&& self.blobs@[i as int].0@ == id@
                    &&& self.model().blobs.contains_key(id@)
                    &&& self.model().blobs[id@] == self.blobs@[i as int].1@
                },
                None => !self.model().blobs.contains_key(id@),
            },
    {
        let mut i: usize = 0;
        while i < self.blobs.len()
            invariant
                i <= self.blobs@.len(),
                forall|j: int| 0 <= j < i ==> (#[trigger] self.blobs@[j]).0@ != id@,
            decreases self.blobs@.len() - i,
        {
            if crate::str_eq(self.blobs[i].0.as_str(), id) {
                proof {
                    assert(self.blobs_assoc()[i as int].0 == id@);
                    lemma_assoc_at(self.blobs_assoc(), i as int);
                }
                return Some(i);
            }
            i = i + 1;
        }
        proof {
            if assoc_has(self.blobs_assoc(), id@) {
                let k = assoc_idx(self.blobs_assoc(), id@);
                assert(self.blobs@[k].0@ == id@);
            }
        }
        None
    }

    /// The ordered blob ids of a file's chunks; no row means no chunks.
    pub fn get_chunks(&self, id: &str) -> (r: Vec<String>)
        requires
            self.wf(),
        ensures
            self.model().chunks.contains_key(id@) ==> r@.map_values(|s: String| s@)
                == self.model().chunks[id@],
            !self.model().chunks.contains_key(id@) ==> r@.map_values(|s: String| s@) == Seq::<
                Seq<char>,
            >::empty(),
    {
        match self.find_chunk_index(id) {
            Some(i) => clone_string_vec(&self.chunks[i].1),
            None => {
                let r: Vec<String> = Vec::new();
                proof {
                    assert(r@.map_values(|s: String| s@) =~= Seq::<Seq<char>>::empty());
                }
                r
            },
        }
    }

    /// Binds chunk `index` of a file to a blob. The index either
    /// replaces an existing chunk or extends the list by exactly one.
    pub fn replace_chunk(&mut self, id: &str, index: usize, blob_id: &str)
        requires
            old(self).wf(),
            old(self).model().chunks.contains_key(id@) ==> index <= old(
                self,
            ).model().chunks[id@].len(),
            !old(self).model().chunks.contains_key(id@) ==> index == 0,
        ensures
            final(self).wf(),
            final(self).next_journal_seq == old(self).next_journal_seq,
            final(self).model() == old(self).model().with_chunks(
                old(self).model().chunks.insert(
                    id@,
                    chunk_list_after_replace(
                        old(self).model().chunks,
                        id@,
                        index as int,
                        blob_id@,
                    ),
                ),
            ),
    {
        let ghost m = old(self).model();
        match self.find_chunk_index(id) {
            Some(ci) => {
                let ghost cpre = self.chunks_assoc();
                let mut row = self.chunks.remove(ci);
                let ghost oldrow = row.1@.map_values(|b: String| b@);
                if index < row.1.len() {
                    row.1.remove(index);
                    row.1.insert(index, String::from_str(blob_id));
                    proof {
                        assert(row.1@.map_values(|b: String| b@) =~= oldrow.update(
                            index as int,
                            blob_id@,
                        ));
                    }
                } else {
                    row.1.push(String::from_str(blob_id));
                    proof {
                        assert(row.1@.map_values(|b: String| b@) =~= oldrow.push(blob_id@));
                    }
                }
                let ghost newrow = row.1@.map_values(|b: String| b@);
                self.chunks.insert(ci, row);
                proof {
                    assert(self.chunks_assoc() =~= cpre.update(
                        ci as int,
                        (cpre[ci as int].0, newrow),
                    ));
                    lemma_assoc_update(cpre, ci as int, newrow);
                    assert(self.model() =~= old(self).model().with_chunks(
                        old(self).model().chunks.insert(id@, newrow),
                    ));
                }
            },
            None => {
                let mut blobs: Vec<String> = Vec::new();
                blobs.push(String::from_str(blob_id));
                let ghost cpre = self.chunks_assoc();
                self.chunks.push((String::from_str(id), blobs));
                proof {
                    let newrow = Seq::<Seq<char>>::empty().push(blob_id@);
                    assert(self.chunks_assoc() =~~= cpre.push((id@, newrow)));
                    lemma_assoc_push(cpre, id@, newrow);
                    assert(self.model() =~= old(self).model().with_chunks(
                        old(self).model().chunks.insert(id@, newrow),
                    ));
                }
            },
        }
    }

    /// Drops a file's chunks from `from` on; no row or a shorter list is
    /// left alone.
    pub fn truncate_chunks(&mut self, id: &str, from: usize)
        requires
            old(self).wf(),
        ensures
            final(self).wf(),
            final(self).next_journal_seq == old(self).next_journal_seq,
            old(self).model().chunks.contains_key(id@) ==> final(self).model() == old(
                self,
            ).model().with_chunks(
                old(self).model().chunks.insert(
                    id@,
                    old(self).model().chunks[id@].subrange(
                        0,
                        truncated_len(old(self).model().chunks[id@].len() as int, from as int),
                    ),
                ),
            ),
            !old(self).model().chunks.contains_key(id@) ==> final(self).model() == old(
                self,
            ).model(),
    {
        match self.find_chunk_index(id) {
            Some(ci) => {
                let ghost cpre = self.chunks_assoc();
                let ghost oldrow = old(self).model().chunks[id@];
                let mut row = self.chunks.remove(ci);
                proof {
                    assert(oldrow.subrange(0, oldrow.len() as int) =~= oldrow);
                }
                while row.1.len() > from
                    invariant
                        row.0@ == id@,
                        row.1@.map_values(|b: String| b@) == oldrow.subrange(
                            0,
                            row.1@.len() as int,
                        ),
                        row.1@.len() <= oldrow.len(),
                        row.1@.len() >= truncated_len(oldrow.len() as int, from as int),
                    decreases row.1@.len(),
                {
                    let ghost before = row.1@.map_values(|b: String| b@);
                    row.1.pop();
                    proof {
                        assert(row.1@.map_values(|b: String| b@) =~= before.drop_last());
                        assert(before.drop_last() =~= oldrow.subrange(0, row.1@.len() as int));
                    }
                }
                let ghost newrow = row.1@.map_values(|b: String| b@);
                self.chunks.insert(ci, row);
                proof {
                    assert(self.chunks_assoc() =~= cpre.update(
                        ci as int,
                        (cpre[ci as int].0, newrow),
                    ));
                    lemma_assoc_update(cpre, ci as int, newrow);
                    assert(newrow =~= oldrow.subrange(
                        0,
                        truncated_len(oldrow.len() as int, from as int),
                    ));
                    assert(self.model() =~= old(self).model().with_chunks(
                        old(self).model().chunks.insert(id@, newrow),
                    ));
                }
            },
            None => {},
        }
    }

    /// Stores content under its digest: trailing zeros are stripped, the
    /// id is the hex digest of the remainder, and inserting content that
    /// is already present is a no-op. Fails, leaving the store
    /// unchanged, only when the id is present with different content,
    /// which content addressing rules out for any digest worth the name.
    pub fn add_blob(&mut self, data: &[u8]) -> (r: OperationResult<String>)
        requires
            old(self).wf(),
        ensures
            final(self).wf(),
            final(self).next_journal_seq == old(self).next_journal_seq,
            match r {
                Ok(id) => {
                    &&& id@ == blob_id_of(data@)
                    &&& final(self).model() == old(self).model().with_blobs(
                        old(self).model().blobs.insert(blob_id_of(data@), trim_zeros(data@)),
                    )
                },
                Err(e) => {
                    &&& *final(self) == *old(self)
                    &&& e.error_type == crate::errors::OperationErrorType::DatabaseError
                },
            },
            r is Ok <==> (old(self).model().blobs.contains_key(blob_id_of(data@)) ==> old(
                self,
            ).model().blobs[blob_id_of(data@)] == trim_zeros(data@)),
    {
        let trimmed = crate::blob_id::trim_trailing_zeros(data);
        proof {
            crate::blob_id::lemma_trim_zeros_idempotent(data@);
        }
        let id = crate::blob_id::blob_id_of_trimmed(trimmed.as_slice());
        match self.find_blob_index(id.as_str()) {
            Some(i) => {
                if crate::bytes_eq(self.blobs[i].1.as_slice(), trimmed.as_slice()) {
                    proof {
                        assert(old(self).model().blobs.insert(id@, trim_zeros(data@)) =~= old(
                            self,
                        ).model().blobs);
                        assert(self.model() =~= old(self).model().with_blobs(
                            old(self).model().blobs.insert(id@, trim_zeros(data@)),
                        ));
                    }
                    Ok(id)
                } else {
                    Err(
                        OperationError::new(
                            crate::errors::OperationErrorType::DatabaseError,
                            String::from_str("blob id held by different content"),
                        ),
                    )
                }
            },
            None => {
                let ghost bpre = self.blobs_assoc();
                self.blobs.push((id, trimmed));
                proof {
                    assert(self.blobs_assoc() =~= bpre.push((blob_id_of(data@), trim_zeros(
                        data@,
                    ))));
                    lemma_assoc_push(bpre, blob_id_of(data@), trim_zeros(data@));
                    assert(self.model() =~= old(self).model().with_blobs(
                        old(self).model().blobs.insert(blob_id_of(data@), trim_zeros(data@)),
                    ));
                }
                let id2 = crate::blob_id::blob_id_of_trimmed(
                    crate::blob_id::trim_trailing_zeros(data).as_slice(),
                );
                proof {
                    assert(blobs_addressed(self.model().blobs)) by {
                        crate::blob_id::lemma_trim_zeros_idempotent(data@);
                    };
                }
                Ok(id2)
            },
        }
    }

    /// The content a blob id names.
    pub fn get_blob(&self, id: &str) -> (r: OperationResult<Vec<u8>>)
        requires
            self.wf(),
        ensures
            match r {
                Ok(v) => self.model().blobs.contains_key(id@) && v@ == self.model().blobs[id@],
                Err(e) => !self.model().blobs.contains_key(id@) && e.error_type
                    == crate::errors::OperationErrorType::BlobDoesNotExist,
            },
    {
        match self.find_blob_index(id) {
            Some(i) => Ok(crate::clone_bytes(&self.blobs[i].1)),
            None => Err(OperationError::blob_does_not_exist()),
        }
    }

    /// The blob rows present among the requested ids, in request order.
    pub fn get_blobs(&self, ids: &Vec<String>) -> (r: Vec<(String, Vec<u8>)>)
        requires
            self.wf(),
        ensures
            r@.map_values(|p: (String, Vec<u8>)| (p.0@, p.1@)) == present_pairs(
                self.model().blobs,
                ids@.map_values(|s: String| s@),
            ),
    {
        proof {
            reveal(Seq::filter);
        }
        let ghost m = self.model().blobs;
        let ghost keys = ids@.map_values(|s: String| s@);
        let ghost pred = |k: Seq<char>| m.contains_key(k);
        let mut r: Vec<(String, Vec<u8>)> = Vec::new();
        let mut i: usize = 0;
        proof {
            assert(keys.subrange(0, 0).filter(pred) =~= Seq::<Seq<char>>::empty());
            assert(r@.map_values(|p: (String, Vec<u8>)| (p.0@, p.1@)) =~= present_pairs(
                m,
                keys.subrange(0, 0),
            ));
        }
        while i < ids.len()
            invariant
                i <= ids@.len(),
                keys == ids@.map_values(|s: String| s@),
                m == self.model().blobs,
                r@.map_values(|p: (String, Vec<u8>)| (p.0@, p.1@)) == present_pairs(
                    m,
                    keys.subrange(0, i as int),
                ),
            decreases ids@.len() - i,
        {
            let ghost prefix = keys.subrange(0, i as int);
            proof {
                assert(keys.subrange(0, i + 1).drop_last() =~= prefix);
                assert(keys.subrange(0, i + 1).last() == keys[i as int]);
            }
            match self.find_blob_index(ids[i].as_str()) {
                Some(bi) => {
                    let key = crate::clone_string(&self.blobs[bi].0);
                    let val = crate::clone_bytes(&self.blobs[bi].1);
                    proof {
                        assert(keys[i as int] == ids@[i as int]@);
                        assert(key@ == keys[i as int]);
                        assert(val@ == m[keys[i as int]]);
                    }
                    let ghost oldpairs = r@.map_values(|p: (String, Vec<u8>)| (p.0@, p.1@));
                    r.push((key, val));
                    proof {
                        assert(r@.map_values(|p: (String, Vec<u8>)| (p.0@, p.1@)) =~~= oldpairs.push(
                            (keys[i as int], m[keys[i as int]]),
                        ));
                        assert(prefix.filter(pred).push(keys[i as int]) =~= keys.subrange(
                            0,
                            i + 1,
                        ).filter(pred));
                        assert(present_pairs(m, keys.subrange(0, i + 1)) =~~= present_pairs(
                            m,
                            prefix,
                        ).push((keys[i as int], m[keys[i as int]])));
                        assert(r@.map_values(|p: (String, Vec<u8>)| (p.0@, p.1@)) =~~= present_pairs(
                            m,
                            keys.subrange(0, i + 1),
                        ));
                    }
                },
                None => {
                    proof {
                        assert(keys.subrange(0, i + 1).filter(pred) =~= prefix.filter(pred));
                        assert(r@.map_values(|p: (String, Vec<u8>)| (p.0@, p.1@)) =~= present_pairs(
                            m,
                            keys.subrange(0, i + 1),
                        ));
                    }
                },
            }
            i = i + 1;
        }
        proof {
            assert(keys.subrange(0, keys.len() as int) =~= keys);
        }
        r
    }

    /// The requested blob ids the store lacks: each missing id once, in
    /// first-request order.
    pub fn get_missing_blobs(&self, ids: &Vec<String>) -> (r: Vec<String>)
        requires
            self.wf(),
        ensures
            forall|p: int, q: int| 0 <= p < q < r@.len() ==> (#[trigger] r@[p])@ != (
                #[trigger] r@[q])@,
            forall|j: int|
                0 <= j < r@.len() ==> !self.model().blobs.contains_key((#[trigger] r@[j])@)
                    && ids@.map_values(|s: String| s@).contains(r@[j]@),
            forall|j: int|
                0 <= j < ids@.len() && !self.model().blobs.contains_key((#[trigger] ids@[j])@)
                    ==> r@.map_values(|s: String| s@).contains(ids@[j]@),
    {
        let mut r: Vec<String> = Vec::new();
        let mut i: usize = 0;
        while i < ids.len()
            invariant
                self.wf(),
                i <= ids@.len(),
                forall|p: int, q: int| 0 <= p < q < r@.len() ==> (#[trigger] r@[p])@ != (
                    #[trigger] r@[q])@,
                forall|j: int|
                    0 <= j < r@.len() ==> !self.model().blobs.contains_key((#[trigger] r@[j])@)
                        && ids@.map_values(|s: String| s@).contains(r@[j]@),
                forall|j: int|
                    0 <= j < i && !self.model().blobs.contains_key((#[trigger] ids@[j])@)
                        ==> r@.map_values(|s: String| s@).contains(ids@[j]@),
            decreases ids@.len() - i,
        {
            let missing = match self.find_blob_index(ids[i].as_str()) {
                Some(_) => false,
                None => true,
            };
            if missing {
                let ghost oldrv = r@.map_values(|s: String| s@);
                if !string_vec_contains(&r, ids[i].as_str()) {
                    r.push(crate::clone_string(&ids[i]));
                    proof {
                        let rv = r@.map_values(|s: String| s@);
                        assert(rv[rv.len() - 1] == ids@[i as int]@);
                        assert(ids@.map_values(|s: String| s@)[i as int] == ids@[i as int]@);
                        assert forall|p: int, q: int|
                            0 <= p < q < r@.len() implies (#[trigger] r@[p])@ != (
                        #[trigger] r@[q])@ by {
                            if q == r@.len() - 1 {
                                assert(oldrv[p] == r@[p]@);
                                assert(oldrv.contains(oldrv[p]));
                            }
                        };
                        assert forall|x: Seq<char>| oldrv.contains(x) implies rv.contains(
                            x,
                        ) by {
                            let w = choose|w: int| 0 <= w < oldrv.len() && oldrv[w] == x;
                            assert(rv[w] == oldrv[w]);
                        };
                    }
                } else {
                    proof {
                        assert(r@.map_values(|s: String| s@).contains(ids@[i as int]@));
                    }
                }
            }
            i = i + 1;
        }
        r
    }
}

/// Filtering keeps any pairwise property of the sequence.
proof fn lemma_filter_preserves_pairwise<A>(
    s: Seq<A>,
    pred: spec_fn(A) -> bool,
    rel: spec_fn(A, A) -> bool,
)
    requires
        forall|i: int, j: int| 0 <= i < j < s.len() ==> rel(#[trigger] s[i], #[trigger] s[j]),
    ensures
        forall|i: int, j: int|
            0 <= i < j < s.filter(pred).len() ==> rel(
                #[trigger] s.filter(pred)[i],
                #[trigger] s.filter(pred)[j],
            ),
    decreases s.len(),
{
    reveal(Seq::filter);
    if s.len() > 0 {
        let prefix = s.drop_last();
        lemma_filter_preserves_pairwise(prefix, pred, rel);
        let f = s.filter(pred);
        let fp = prefix.filter(pred);
        assert forall|i: int, j: int| 0 <= i < j < f.len() implies rel(f[i], f[j]) by {
            if pred(s.last()) && j == f.len() - 1 {
                assert(f[i] == fp[i]);
                lemma_filter_member_of(prefix, pred, i);
                let q = choose|q: int| 0 <= q < prefix.len() && prefix[q] == fp[i];
                assert(s[q] == fp[i]);
                assert(rel(s[q], s.last()));
            } else {
                assert(f[i] == fp[i] && f[j] == fp[j]);
            }
        };
    }
}

impl StoreTables {
    /// The table position of a journal sequence number.
    fn find_journal_index(&self, seq: i64) -> (r: Option<usize>)
        requires
            self.wf(),
        ensures
            match r {
                Some(i) => i < self.journal@.len() && self.journal@[i as int].seq == seq,
                None => forall|j: int|
                    0 <= j < self.journal@.len() ==> (#[trigger] self.journal@[j]).seq != seq,
            },
    {
        let mut i: usize = 0;
        while i < self.journal.len()
            invariant
                i <= self.journal@.len(),
                forall|j: int| 0 <= j < i ==> (#[trigger] self.journal@[j]).seq != seq,
            decreases self.journal@.len() - i,
        {
            if self.journal[i].seq == seq {
                return Some(i);
            }
            i = i + 1;
        }
        None
    }

    /// Appends an operation to the journal, returning its sequence
    /// number.
    pub fn add_journal_entry(&mut self, id: &str, operation: &[u8]) -> (r: i64)
        requires
            old(self).wf(),
            old(self).next_journal_seq < i64::MAX,
        ensures
            final(self).wf(),
            r == old(self).next_journal_seq,
            final(self).next_journal_seq == old(self).next_journal_seq + 1,
            final(self).model() == old(self).model().with_journal(
                old(self).model().journal.push(
                    JournalEntryView { seq: r, file: id@, operation: operation@ },
                ),
            ),
    {
        let seq = self.next_journal_seq;
        let entry = JournalEntry {
            seq,
            file: String::from_str(id),
            operation: slice_to_vec_u8(operation),
        };
        self.journal.push(entry);
        self.next_journal_seq = self.next_journal_seq + 1;
        proof {
            assert(self.journal@.map_values(|e: JournalEntry| e@) =~= old(
                self,
            ).journal@.map_values(|e: JournalEntry| e@).push(
                JournalEntryView { seq, file: id@, operation: operation@ },
            ));
            assert(self.model() =~= old(self).model().with_journal(
                old(self).model().journal.push(
                    JournalEntryView { seq, file: id@, operation: operation@ },
                ),
            ));
        }
        seq
    }

    /// The journaled operations, in sequence order.
    pub fn get_journal(&self) -> (r: Vec<Vec<u8>>)
        requires
            self.wf(),
        ensures
            r@.map_values(|v: Vec<u8>| v@) == self.model().journal.map_values(
                |e: JournalEntryView| e.operation,
            ),
    {
        let mut r: Vec<Vec<u8>> = Vec::new();
        let mut i: usize = 0;
        while i < self.journal.len()
            invariant
                i <= self.journal@.len(),
                r@.len() == i,
                forall|j: int| 0 <= j < i ==> (#[trigger] r@[j])@ == self.journal@[j].operation@,
            decreases self.journal@.len() - i,
        {
            r.push(crate::clone_bytes(&self.journal[i].operation));
            i = i + 1;
        }
        proof {
            assert(r@.map_values(|v: Vec<u8>| v@) =~= self.model().journal.map_values(
                |e: JournalEntryView| e.operation,
            ));
        }
        r
    }

    /// Empties the journal.
    pub fn clear_journal(&mut self)
        requires
            old(self).wf(),
        ensures
            final(self).wf(),
            final(self).next_journal_seq == old(self).next_journal_seq,
            final(self).model() == old(self).model().with_journal(
                Seq::<JournalEntryView>::empty(),
            ),
    {
        self.journal = Vec::new();
        proof {
            assert(self.journal@.map_values(|e: JournalEntry| e@) =~= Seq::<
                JournalEntryView,
            >::empty());
            assert(self.model() =~= old(self).model().with_journal(
                Seq::<JournalEntryView>::empty(),
            ));
        }
    }

    /// Removes the journal row with the given sequence number; an
    /// unknown number leaves the journal alone.
    pub fn remove_journal_item(&mut self, seq: i64)
        requires
            old(self).wf(),
        ensures
            final(self).wf(),
            final(self).next_journal_seq == old(self).next_journal_seq,
            final(self).model() == old(self).model().with_journal(
                old(self).model().journal.filter(|e: JournalEntryView| e.seq != seq),
            ),
    {
        let ghost pred = |e: JournalEntryView| e.seq != seq;
        let ghost pre = self.model().journal;
        proof {
            reveal(Seq::filter);
        }
        match self.find_journal_index(seq) {
            Some(i) => {
                self.journal.remove(i);
                proof {
                    lemma_remove_unique_is_filter(pre, i as int, seq);
                    assert(self.journal@.map_values(|e: JournalEntry| e@) =~= pre.remove(
                        i as int,
                    ));
                    assert(self.model() =~= old(self).model().with_journal(pre.filter(pred)));
                    lemma_filter_preserves_pairwise(
                        pre,
                        pred,
                        |a: JournalEntryView, b: JournalEntryView| a.seq < b.seq,
                    );
                    assert forall|j: int|
                        0 <= j < self.journal@.len() implies (#[trigger] self.journal@[j]).seq
                        < self.next_journal_seq by {
                        assert(self.journal@[j]@ == pre.remove(i as int)[j]);
                    };
                }
            },
            None => {
                proof {
                    lemma_filter_all(pre, pred);
                    assert(self.model() =~= old(self).model().with_journal(pre.filter(pred)));
                }
            },
        }
    }

    /// Removes every journal row that concerns the given file.
    pub fn remove_file_from_journal(&mut self, id: &str)
        requires
            old(self).wf(),
        ensures
            final(self).wf(),
            final(self).next_journal_seq == old(self).next_journal_seq,
            final(self).model() == old(self).model().with_journal(
                old(self).model().journal.filter(|e: JournalEntryView| e.file != id@),
            ),
    {
        let ghost pred = |e: JournalEntryView| e.file != id@;
        let ghost pre = self.model().journal;
        proof {
            reveal(Seq::filter);
        }
        let mut survivors: Vec<JournalEntry> = Vec::new();
        let mut i: usize = 0;
        proof {
            assert(pre.subrange(0, 0) =~= Seq::<JournalEntryView>::empty());
            assert(survivors@.map_values(|e: JournalEntry| e@) =~= pre.subrange(0, 0).filter(
                pred,
            ));
        }
        while i < self.journal.len()
            invariant
                i <= self.journal@.len(),
                self.journal@.map_values(|e: JournalEntry| e@) == pre,
                self == old(self),
                survivors@.map_values(|e: JournalEntry| e@) == pre.subrange(0, i as int).filter(
                    pred,
                ),
            decreases self.journal@.len() - i,
        {
            let ghost prefix = pre.subrange(0, i as int);
            proof {
                assert(pre.subrange(0, i + 1).drop_last() =~= prefix);
                assert(pre.subrange(0, i + 1).last() == pre[i as int]);
            }
            if !crate::str_eq(self.journal[i].file.as_str(), id) {
                let e = &self.journal[i];
                survivors.push(
                    JournalEntry {
                        seq: e.seq,
                        file: crate::clone_string(&e.file),
                        operation: crate::clone_bytes(&e.operation),
                    },
                );
                proof {
                    assert(survivors@.map_values(|e: JournalEntry| e@) =~= prefix.filter(
                        pred,
                    ).push(pre[i as int]));
                }
            } else {
                proof {
                    assert(pre.subrange(0, i + 1).filter(pred) =~= prefix.filter(pred));
                }
            }
            i = i + 1;
        }
        self.journal = survivors;
        proof {
            assert(pre.subrange(0, pre.len() as int) =~= pre);
            assert(self.model() =~= old(self).model().with_journal(pre.filter(pred)));
            let rel = |a: JournalEntryView, b: JournalEntryView| a.seq < b.seq;
            assert forall|p: int, q: int| 0 <= p < q < pre.len() implies rel(
                #[trigger] pre[p],
                #[trigger] pre[q],
            ) by {
                assert(pre[p] == old(self).journal@[p]@ && pre[q] == old(self).journal@[q]@);
            };
            lemma_filter_preserves_pairwise(pre, pred, rel);
            assert forall|p: int, q: int|
                0 <= p < q < self.journal@.len() implies (#[trigger] self.journal@[p]).seq < (
            #[trigger] self.journal@[q]).seq by {
                assert(self.journal@[p]@ == pre.filter(pred)[p]);
                assert(self.journal@[q]@ == pre.filter(pred)[q]);
                assert(rel(pre.filter(pred)[p], pre.filter(pred)[q]));
            };
            assert forall|j: int|
                0 <= j < self.journal@.len() implies (#[trigger] self.journal@[j]).seq
                < self.next_journal_seq by {
                assert(self.journal@[j]@ == pre.filter(pred)[j]);
                lemma_filter_member_of(pre, pred, j);
                let q = choose|q: int| 0 <= q < pre.len() && pre[q] == pre.filter(pred)[j];
                assert(old(self).journal@[q]@ == pre[q]);
            };
        }
    }

    /// Deletes the files under a parent that are not in the keep list.
    pub fn remove_remaining_files(&mut self, parent_id: &str, to_keep: &Vec<String>)
        requires
            old(self).wf(),
        ensures
            final(self).wf(),
            final(self).next_journal_seq == old(self).next_journal_seq,
            forall|k: Seq<char>|
                (#[trigger] final(self).model().files.contains_key(k)) <==> (old(
                    self,
                ).model().files.contains_key(k) && !(old(self).model().files[k].parent
                    == parent_id@ && !to_keep@.map_values(|s: String| s@).contains(k))),
            forall|k: Seq<char>|
                #[trigger] final(self).model().files.contains_key(k) ==> final(self).model().files[k] == old(self).model().files[k],
            final(self).model().chunks == old(self).model().chunks,
            final(self).model().blobs == old(self).model().blobs,
            final(self).model().journal == old(self).model().journal,
    {
        let ghost keep = to_keep@.map_values(|s: String| s@);
        let ghost rowpred = |p: (Seq<char>, DirEntityView)|
            !(p.1.parent == parent_id@ && !keep.contains(p.0));
        let ghost pre = self.files_assoc();
        proof {
            reveal(Seq::filter);
        }
        let mut survivors: Vec<DirEntity> = Vec::new();
        let mut i: usize = 0;
        proof {
            assert(pre.subrange(0, 0) =~= Seq::<(Seq<char>, DirEntityView)>::empty());
            assert(survivors@.map_values(|d: DirEntity| (d.id@, d@)) =~= pre.subrange(
                0,
                0,
            ).filter(rowpred));
        }
        while i < self.files.len()
            invariant
                i <= self.files@.len(),
                self.files_assoc() == pre,
                self == old(self),
                survivors@.map_values(|d: DirEntity| (d.id@, d@)) == pre.subrange(
                    0,
                    i as int,
                ).filter(rowpred),
            decreases self.files@.len() - i,
        {
            let ghost prefix = pre.subrange(0, i as int);
            proof {
                assert(pre.subrange(0, i + 1).drop_last() =~= prefix);
                assert(pre.subrange(0, i + 1).last() == pre[i as int]);
            }
            let is_child = crate::str_eq(self.files[i].parent.as_str(), parent_id);
            let mut kept = !is_child;
            if is_child {
                kept = string_vec_contains(to_keep, self.files[i].id.as_str());
            }
            proof {
                assert(kept == rowpred(pre[i as int]));
            }
            if kept {
                survivors.push(self.files[i].duplicate());
                proof {
                    assert(survivors@.map_values(|d: DirEntity| (d.id@, d@)) =~= prefix.filter(
                        rowpred,
                    ).push(pre[i as int]));
                }
            } else {
                proof {
                    assert(pre.subrange(0, i + 1).filter(rowpred) =~= prefix.filter(rowpred));
                }
            }
            i = i + 1;
        }
        self.files = survivors;
        proof {
            assert(pre.subrange(0, pre.len() as int) =~= pre);
            assert(self.files_assoc() == pre.filter(rowpred));
            crate::assoc::lemma_assoc_filter(pre, rowpred);
            assert(pn_unique(self.model().files)) by {
                assert forall|k1: Seq<char>, k2: Seq<char>|
                    self.model().files.contains_key(k1) && self.model().files.contains_key(k2)
                        && k1 != k2 implies !((#[trigger] self.model().files[k1]).parent == (
                #[trigger] self.model().files[k2]).parent && self.model().files[k1].name
                    == self.model().files[k2].name) by {
                    assert(old(self).model().files.contains_key(k1));
                    assert(old(self).model().files.contains_key(k2));
                };
            };
            assert(self.model().chunks =~= old(self).model().chunks);
            assert(self.model().blobs =~= old(self).model().blobs);
            assert(self.model().journal =~= old(self).model().journal);
        }
    }

    /// Whether any chunk row references the blob.
    fn blob_referenced(&self, id: &str) -> (r: bool)
        requires
            self.wf(),
        ensures
            r == exists|k: Seq<char>|
                #[trigger] self.model().chunks.contains_key(k) && self.model().chunks[k].contains(
                    id@,
                ),
    {
        let mut i: usize = 0;
        while i < self.chunks.len()
            invariant
                i <= self.chunks@.len(),
                forall|j: int|
                    0 <= j < i ==> !(#[trigger] self.chunks@[j]).1@.map_values(
                        |b: String| b@,
                    ).contains(id@),
            decreases self.chunks@.len() - i,
        {
            let row = &self.chunks[i];
            let mut j: usize = 0;
            while j < row.1.len()
                invariant
                    j <= row.1@.len(),
                    row == &self.chunks@[i as int],
                    i < self.chunks@.len(),
                    forall|q: int| 0 <= q < j ==> (#[trigger] row.1@[q])@ != id@,
                decreases row.1@.len() - j,
            {
                if crate::str_eq(row.1[j].as_str(), id) {
                    proof {
                        lemma_assoc_at(self.chunks_assoc(), i as int);
                        assert(self.model().chunks[self.chunks@[i as int].0@]
                            == self.chunks@[i as int].1@.map_values(|b: String| b@));
                        assert(self.chunks@[i as int].1@.map_values(|b: String| b@)[j as int]
                            == id@);
                    }
                    return true;
                }
                j = j + 1;
            }
            proof {
                assert(!self.chunks@[i as int].1@.map_values(|b: String| b@).contains(id@)) by {
                    let v = self.chunks@[i as int].1@.map_values(|b: String| b@);
                    if v.contains(id@) {
                        let q = choose|q: int| 0 <= q < v.len() && v[q] == id@;
                        assert(self.chunks@[i as int].1@[q]@ == id@);
                    }
                };
            }
            i = i + 1;
        }
        proof {
            if exists|k: Seq<char>|
                #[trigger] self.model().chunks.contains_key(k) && self.model().chunks[k].contains(
                    id@,
                ) {
                let k = choose|k: Seq<char>|
                    #[trigger] self.model().chunks.contains_key(k)
                        && self.model().chunks[k].contains(id@);
                let p = assoc_idx(self.chunks_assoc(), k);
                assert(self.chunks@[p].1@.map_values(|b: String| b@).contains(id@));
            }
        }
        false
    }

    /// Deletes the blobs no chunk row references.
    pub fn run_gc(&mut self)
        requires
            old(self).wf(),
        ensures
            final(self).wf(),
            final(self).next_journal_seq == old(self).next_journal_seq,
            forall|k: Seq<char>|
                (#[trigger] final(self).model().blobs.contains_key(k)) <==> (old(
                    self,
                ).model().blobs.contains_key(k) && exists|f: Seq<char>|
                    #[trigger] old(self).model().chunks.contains_key(f) && old(
                        self,
                    ).model().chunks[f].contains(k)),
            forall|k: Seq<char>|
                #[trigger] final(self).model().blobs.contains_key(k) ==> final(self).model().blobs[k] == old(self).model().blobs[k],
            final(self).model().files == old(self).model().files,
            final(self).model().chunks == old(self).model().chunks,
            final(self).model().journal == old(self).model().journal,
    {
        let ghost chunksm = self.model().chunks;
        let ghost rowpred = |p: (Seq<char>, Seq<u8>)|
            exists|f: Seq<char>| #[trigger] chunksm.contains_key(f) && chunksm[f].contains(p.0);
        let ghost pre = self.blobs_assoc();
        proof {
            reveal(Seq::filter);
        }
        let mut survivors: Vec<(String, Vec<u8>)> = Vec::new();
        let mut i: usize = 0;
        proof {
            assert(pre.subrange(0, 0) =~= Seq::<(Seq<char>, Seq<u8>)>::empty());
            assert(survivors@.map_values(|p: (String, Vec<u8>)| (p.0@, p.1@)) =~= pre.subrange(
                0,
                0,
            ).filter(rowpred));
        }
        while i < self.blobs.len()
            invariant
                i <= self.blobs@.len(),
                self.blobs_assoc() == pre,
                self == old(self),
                chunksm == self.model().chunks,
                survivors@.map_values(|p: (String, Vec<u8>)| (p.0@, p.1@)) == pre.subrange(
                    0,
                    i as int,
                ).filter(rowpred),
            decreases self.blobs@.len() - i,
        {
            let ghost prefix = pre.subrange(0, i as int);
            proof {
                assert(pre.subrange(0, i + 1).drop_last() =~= prefix);
                assert(pre.subrange(0, i + 1).last() == pre[i as int]);
            }
            if self.blob_referenced(self.blobs[i].0.as_str()) {
                let key = crate::clone_string(&self.blobs[i].0);
                let val = crate::clone_bytes(&self.blobs[i].1);
                survivors.push((key, val));
                proof {
                    assert(survivors@.map_values(|p: (String, Vec<u8>)| (p.0@, p.1@))
                        =~= prefix.filter(rowpred).push(pre[i as int]));
                }
            } else {
                proof {
                    assert(pre.subrange(0, i + 1).filter(rowpred) =~= prefix.filter(rowpred));
                }
            }
            i = i + 1;
        }
        self.blobs = survivors;
        proof {
            assert(pre.subrange(0, pre.len() as int) =~= pre);
            assert(self.blobs_assoc() == pre.filter(rowpred));
            crate::assoc::lemma_assoc_filter(pre, rowpred);
            assert(blobs_addressed(self.model().blobs)) by {
                assert forall|k: Seq<char>| #[trigger] self.model().blobs.contains_key(k) implies
                    trim_zeros(self.model().blobs[k]) == self.model().blobs[k] && k == hex_of(
                    sha256_of(self.model().blobs[k]),
                ) by {
                    assert(old(self).model().blobs.contains_key(k));
                };
            };
            assert(self.model().files =~= old(self).model().files);
            assert(self.model().chunks =~= old(self).model().chunks);
            assert(self.model().journal =~= old(self).model().journal);
        }
    }
}

/// Removing the only row with a property is filtering the property out.
proof fn lemma_remove_unique_is_filter(s: Seq<JournalEntryView>, i: int, seq: i64)
    requires
        0 <= i < s.len(),
        s[i].seq == seq,
        forall|p: int, q: int| 0 <= p < q < s.len() ==> (#[trigger] s[p]).seq < (#[trigger] s[q]).seq,
    ensures
        s.remove(i) == s.filter(|e: JournalEntryView| e.seq != seq),
    decreases s.len(),
{
    reveal(Seq::filter);
    let pred = |e: JournalEntryView| e.seq != seq;
    if i == s.len() - 1 {
        assert(!pred(s.last()));
        assert(s.remove(i) =~= s.drop_last());
        lemma_filter_all_keep(s.drop_last(), pred);
        assert(s.filter(pred) == s.drop_last().filter(pred));
    } else {
        let prefix = s.drop_last();
        assert(pred(s.last())) by {
            assert(s[i].seq < s[s.len() - 1].seq);
        };
        lemma_remove_unique_is_filter(prefix, i, seq);
        assert(s.remove(i) =~= prefix.remove(i).push(s.last()));
        assert(s.filter(pred) == prefix.filter(pred).push(s.last()));
    }
}

/// A sequence every element of which passes the filter is kept whole.
proof fn lemma_filter_all_keep(s: Seq<JournalEntryView>, pred: spec_fn(JournalEntryView) -> bool)
    requires
        forall|j: int| 0 <= j < s.len() ==> pred(#[trigger] s[j]),
    ensures
        s.filter(pred) == s,
    decreases s.len(),
{
    reveal(Seq::filter);
    if s.len() > 0 {
        lemma_filter_all_keep(s.drop_last(), pred);
        assert(s.filter(pred) =~= s);
    }
}

/// A sequence with no matching element is left whole by filtering the
/// matches out.
proof fn lemma_filter_all(s: Seq<JournalEntryView>, pred: spec_fn(JournalEntryView) -> bool)
    requires
        forall|j: int| 0 <= j < s.len() ==> pred(#[trigger] s[j]),
    ensures
        s.filter(pred) == s,
{
    lemma_filter_all_keep(s, pred);
}

/// Whether some string of the vector holds the given characters.
fn string_vec_contains(v: &Vec<String>, s: &str) -> (r: bool)
    ensures
        r == v@.map_values(|x: String| x@).contains(s@),
{
    let mut i: usize = 0;
    while i < v.len()
        invariant
            i <= v@.len(),
            forall|j: int| 0 <= j < i ==> (#[trigger] v@[j])@ != s@,
        decreases v@.len() - i,
    {
        if crate::str_eq(v[i].as_str(), s) {
            proof {
                assert(v@.map_values(|x: String| x@)[i as int] == s@);
            }
            return true;
        }
        i = i + 1;
    }
    proof {
        let m = v@.map_values(|x: String| x@);
        if m.contains(s@) {
            let j = choose|j: int| 0 <= j < m.len() && m[j] == s@;
            assert(v@[j]@ == s@);
        }
    }
    false
}

/// A vector holding the bytes of a slice.
fn slice_to_vec_u8(data: &[u8]) -> (r: Vec<u8>)
    ensures
        r@ == data@,
{
    let mut r: Vec<u8> = Vec::new();
    let mut i: usize = 0;
    while i < data.len()
        invariant
            i <= data@.len(),
            r@ == data@.subrange(0, i as int),
        decreases data@.len() - i,
    {
        r.push(data[i]);
        proof {
            assert(r@ =~= data@.subrange(0, i + 1));
        }
        i = i + 1;
    }
    proof {
        assert(r@ =~= data@);
    }
    r
}

/// Every element the filter keeps came from the sequence.
proof fn lemma_filter_member_of<A>(s: Seq<A>, pred: spec_fn(A) -> bool, j: int)
    requires
        0 <= j < s.filter(pred).len(),
    ensures
        exists|q: int| 0 <= q < s.len() && s[q] == s.filter(pred)[j],
    decreases s.len(),
{
    reveal(Seq::filter);
    if s.len() > 0 {
        if pred(s.last()) && j == s.filter(pred).len() - 1 {
            assert(s[s.len() - 1] == s.filter(pred)[j]);
        } else {
            lemma_filter_member_of(s.drop_last(), pred, j);
            let q = choose|q: int|
                0 <= q < s.drop_last().len() && s.drop_last()[q] == s.drop_last().filter(pred)[j];
            assert(s[q] == s.filter(pred)[j]);
        }
    }
}

/// The transactional entity store: the tables, the id generator that
/// names new entities, and at most one open transaction's snapshot.
pub struct Store<T: IdGenerator> {
    pub tables: StoreTables,
    pub id_generator: T,
    pub saved: Option<StoreTables>,
}

impl<T: IdGenerator> Store<T> {
    /// The store's mathematical value.
    pub open spec fn model(self) -> StoreModel {
        self.tables.model()
    }

    /// The open transaction's saved model, if one is open.
    pub open spec fn saved_model(self) -> Option<StoreModel> {
        match self.saved {
            Some(t) => Some(t.model()),
            None => None,
        }
    }

    pub open spec fn wf(self) -> bool {
        &&& self.tables.wf()
        &&& match self.saved {
            Some(t) => t.wf(),
            None => true,
        }
    }

    pub fn new(id_generator: T) -> (r: Store<T>)
        ensures
            r.wf(),
            r.model().files =~= Map::<Seq<char>, DirEntityView>::empty(),
            r.model().chunks =~= Map::<Seq<char>, Seq<Seq<char>>>::empty(),
            r.model().blobs =~= Map::<Seq<char>, Seq<u8>>::empty(),
            r.model().journal =~= Seq::<JournalEntryView>::empty(),
            r.saved is None,
            r.id_generator == id_generator,
    {
        Store { tables: StoreTables::new(), id_generator, saved: None }
    }

    /// Opens a transaction: the tables are snapshotted, and a rollback
    /// restores them. Only one transaction is open at a time.
    pub fn transaction_begin(&mut self)
        requires
            old(self).wf(),
            old(self).saved is None,
        ensures
            final(self).wf(),
            final(self).model() == old(self).model(),
            final(self).tables == old(self).tables,
            final(self).id_generator == old(self).id_generator,
            final(self).saved_model() == Some(old(self).model()),
    {
        let snapshot = self.tables.duplicate();
        self.saved = Some(snapshot);
    }

    /// Closes the open transaction, keeping every mutation made since it
    /// was opened.
    pub fn transaction_commit(&mut self)
        requires
            old(self).wf(),
        ensures
            final(self).wf(),
            final(self).model() == old(self).model(),
            final(self).tables == old(self).tables,
            final(self).id_generator == old(self).id_generator,
            final(self).saved is None,
    {
        self.saved = None;
    }

    /// Abandons the open transaction: the tables return to the snapshot
    /// taken when it was opened. The id generator is process state, not
    /// table state, and keeps its position.
    pub fn transaction_rollback(&mut self)
        requires
            old(self).wf(),
            old(self).saved is Some,
        ensures
            final(self).wf(),
            Some(final(self).model()) == old(self).saved_model(),
            final(self).id_generator == old(self).id_generator,
            final(self).saved is None,
    {
        let taken = self.saved.take();
        match taken {
            Some(t) => {
                self.tables = t;
            },
            None => {},
        }
    }

    /// Creates an entity row under a parent, with a given id or a fresh
    /// one from the generator. The root id stands alone: it has no
    /// parent. Fails, leaving the tables unchanged, iff the id or the
    /// `(parent, name)` place is taken. The parent's existence is the
    /// caller's to establish: every filesystem entry point resolves the
    /// parent before it reaches here.
    pub fn create_file_entity(
        &mut self,
        parent_id: &str,
        id: Option<&str>,
        name: &str,
        file_type: FileType,
        mode: FileMode,
        dev: FileDev,
        creation_time: Timespec,
    ) -> (r: OperationResult<String>)
        requires
            old(self).wf(),
            old(self).id_generator.ok(),
        ensures
            final(self).wf(),
            final(self).saved == old(self).saved,
            final(self).tables.next_journal_seq == old(self).tables.next_journal_seq,
            match id {
                Some(_) => final(self).id_generator == old(self).id_generator,
                None => T::gen_post(
                    old(self).id_generator,
                    final(self).id_generator,
                    spec_created_id(*old(self), id, *final(self), r),
                ),
            },
            match r {
                Ok(rid) => {
                    &&& (id is Some ==> rid@ == id->0@)
                    &&& !old(self).model().files.contains_key(rid@)
                    &&& !has_by_name(
                        old(self).model().files,
                        spec_create_parent(rid@, parent_id@),
                        name@,
                    )
                    &&& final(self).model() == old(self).model().with_files(
                        old(self).model().files.insert(
                            rid@,
                            new_entity_view(
                                rid@,
                                spec_create_parent(rid@, parent_id@),
                                name@,
                                file_type,
                                mode,
                                dev,
                                creation_time,
                            ),
                        ),
                    )
                },
                Err(e) => {
                    &&& final(self).model() == old(self).model()
                    &&& e.error_type == crate::errors::OperationErrorType::DatabaseError
                },
            },
    {
        let id_string: String = match id {
            Some(s) => String::from_str(s),
            None => self.id_generator.generate_id(),
        };
        let is_root = crate::str_eq(id_string.as_str(), crate::types::ROOT_ID);
        let parent_string: String = if is_root {
            String::new()
        } else {
            String::from_str(parent_id)
        };
        proof {
            reveal_strlit("root");
        }
        let entity = DirEntity {
            id: id_string,
            parent: parent_string,
            name: String::from_str(name),
            dirent_version: 1,
            content_version: 1,
            retrieved_version: 0,
            stat: FileStat {
                file_type,
                mode,
                dev,
                nlink: 2,
                uid: 1000,
                gid: 1000,
                size: 0,
                blocks: 1,
                atim: creation_time,
                mtim: creation_time,
                ctim: creation_time,
            },
        };
        let ghost ev = entity@;
        let rid = crate::clone_string(&entity.id);
        match self.tables.insert_entity(entity) {
            Ok(_) => {
                proof {
                    assert(ev == new_entity_view(
                        rid@,
                        spec_create_parent(rid@, parent_id@),
                        name@,
                        file_type,
                        mode,
                        dev,
                        creation_time,
                    ));
                }
                Ok(rid)
            },
            Err(e) => Err(e),
        }
    }

    /// Creates a file entity under a parent with a fresh id.
    pub fn create_file(
        &mut self,
        parent_id: &str,
        name: &str,
        file_type: FileType,
        mode: FileMode,
        dev: FileDev,
        creation_time: Timespec,
    ) -> (r: OperationResult<String>)
        requires
            old(self).wf(),
            old(self).id_generator.ok(),
        ensures
            final(self).wf(),
            final(self).saved == old(self).saved,
            final(self).tables.next_journal_seq == old(self).tables.next_journal_seq,
            T::gen_post(
                old(self).id_generator,
                final(self).id_generator,
                spec_created_id(*old(self), None, *final(self), r),
            ),
            match r {
                Ok(rid) => {
                    &&& !old(self).model().files.contains_key(rid@)
                    &&& !has_by_name(
                        old(self).model().files,
                        spec_create_parent(rid@, parent_id@),
                        name@,
                    )
                    &&& final(self).model() == old(self).model().with_files(
                        old(self).model().files.insert(
                            rid@,
                            new_entity_view(
                                rid@,
                                spec_create_parent(rid@, parent_id@),
                                name@,
                                file_type,
                                mode,
                                dev,
                                creation_time,
                            ),
                        ),
                    )
                },
                Err(e) => {
                    &&& final(self).model() == old(self).model()
                    &&& e.error_type == crate::errors::OperationErrorType::DatabaseError
                },
            },
    {
        self.create_file_entity(parent_id, None, name, file_type, mode, dev, creation_time)
    }

    /// Creates a directory entity under a parent with a fresh id.
    pub fn create_directory(
        &mut self,
        parent_id: &str,
        name: &str,
        mode: FileMode,
        creation_time: Timespec,
    ) -> (r: OperationResult<String>)
        requires
            old(self).wf(),
            old(self).id_generator.ok(),
        ensures
            final(self).wf(),
            final(self).saved == old(self).saved,
            final(self).tables.next_journal_seq == old(self).tables.next_journal_seq,
            T::gen_post(
                old(self).id_generator,
                final(self).id_generator,
                spec_created_id(*old(self), None, *final(self), r),
            ),
            match r {
                Ok(rid) => {
                    &&& !old(self).model().files.contains_key(rid@)
                    &&& !has_by_name(
                        old(self).model().files,
                        spec_create_parent(rid@, parent_id@),
                        name@,
                    )
                    &&& final(self).model() == old(self).model().with_files(
                        old(self).model().files.insert(
                            rid@,
                            new_entity_view(
                                rid@,
                                spec_create_parent(rid@, parent_id@),
                                name@,
                                FileType::Directory,
                                mode,
                                0,
                                creation_time,
                            ),
                        ),
                    )
                },
                Err(e) => {
                    &&& final(self).model() == old(self).model()
                    &&& e.error_type == crate::errors::OperationErrorType::DatabaseError
                },
            },
    {
        self.create_file_entity(
            parent_id,
            None,
            name,
            FileType::Directory,
            mode,
            0,
            creation_time,
        )
    }

    /// Puts the root directory in place if it is missing.
    pub fn create_root_directory(&mut self, mode: FileMode, creation_time: Timespec) -> (r:
        OperationResult<()>)
        requires
            old(self).wf(),
            old(self).id_generator.ok(),
        ensures
            final(self).wf(),
            final(self).saved == old(self).saved,
            final(self).id_generator == old(self).id_generator,
            final(self).tables.next_journal_seq == old(self).tables.next_journal_seq,
            match r {
                Ok(_) => {
                    &&& old(self).model().files.contains_key("root"@) ==> final(self).model()
                        == old(self).model()
                    &&& !old(self).model().files.contains_key("root"@) ==> final(self).model()
                        == old(self).model().with_files(
                        old(self).model().files.insert(
                            "root"@,
                            new_entity_view(
                                "root"@,
                                Seq::<char>::empty(),
                                Seq::<char>::empty(),
                                FileType::Directory,
                                mode,
                                0,
                                creation_time,
                            ),
                        ),
                    )
                },
                Err(e) => {
                    &&& final(self).model() == old(self).model()
                    &&& e.error_type == crate::errors::OperationErrorType::DatabaseError
                },
            },
    {
        proof {
            reveal_strlit("root");
        }
        if self.tables.file_exists(crate::types::ROOT_ID) {
            return Ok(());
        }
        let r = self.create_file_entity(
            "",
            Some(crate::types::ROOT_ID),
            "",
            FileType::Directory,
            mode,
            0,
            creation_time,
        );
        proof {
            reveal_strlit("");
            assert(""@ =~= Seq::<char>::empty());
        }
        match r {
            Ok(_) => Ok(()),
            Err(e) => Err(e),
        }
    }

    /// Puts the root directory in place with default permissions.
    pub fn create_default_root_directory(&mut self) -> (r: OperationResult<()>)
        requires
            old(self).wf(),
            old(self).id_generator.ok(),
        ensures
            final(self).wf(),
            final(self).saved == old(self).saved,
            final(self).id_generator == old(self).id_generator,
            final(self).tables.next_journal_seq == old(self).tables.next_journal_seq,
            match r {
                Ok(_) => {
                    &&& old(self).model().files.contains_key("root"@) ==> final(self).model()
                        == old(self).model()
                    &&& !old(self).model().files.contains_key("root"@) ==> final(self).model()
                        == old(self).model().with_files(
                        old(self).model().files.insert(
                            "root"@,
                            new_entity_view(
                                "root"@,
                                Seq::<char>::empty(),
                                Seq::<char>::empty(),
                                FileType::Directory,
                                493,
                                0,
                                Timespec { sec: 0, nsec: 0 },
                            ),
                        ),
                    )
                },
                Err(e) => {
                    &&& final(self).model() == old(self).model()
                    &&& e.error_type == crate::errors::OperationErrorType::DatabaseError
                },
            },
    {
        self.create_root_directory(493, Timespec { sec: 0, nsec: 0 })
    }

    /// Starts the id generator over.
    pub fn reset_id_generator(&mut self)
        requires
            old(self).wf(),
        ensures
            final(self).wf(),
            final(self).tables == old(self).tables,
            final(self).saved == old(self).saved,
            T::reset_post(old(self).id_generator, final(self).id_generator),
    {
        self.id_generator.reset_generator();
    }
}

/// The id a create resolved to: the given id where one was given, the
/// returned id where the call succeeded, and otherwise whatever the
/// generator handed out, named here only so the generator transition can
/// be stated.
pub open spec fn spec_created_id<T: IdGenerator>(
    pre: Store<T>,
    id: Option<&str>,
    post: Store<T>,
    r: OperationResult<String>,
) -> Seq<char> {
    match r {
        Ok(s) => s@,
        Err(_) => choose|s: Seq<char>| T::gen_post(pre.id_generator, post.id_generator, s),
    }
}

impl Store<crate::id_generator::LocalTempIdGenerator> {
    /// Moves an entity to a fresh temporary id, returning it.
    pub fn assign_temp_id(&mut self, id: &str) -> (r: OperationResult<String>)
        requires
            old(self).wf(),
            old(self).id_generator.ok(),
        ensures
            final(self).wf(),
            final(self).saved == old(self).saved,
            final(self).tables.next_journal_seq == old(self).tables.next_journal_seq,
            final(self).id_generator.next_id == old(self).id_generator.next_id + 1,
            match r {
                Ok(new_id) => {
                    &&& new_id@ == crate::id_generator::temp_id_seq(
                        old(self).id_generator.next_id as nat,
                    )
                    &&& !old(self).model().files.contains_key(new_id@) || new_id@ == id@
                    &&& old(self).model().files.contains_key(id@) ==> final(self).model() == old(
                        self,
                    ).model().with_files(
                        old(self).model().files.remove(id@).insert(
                            new_id@,
                            DirEntityView { id: new_id@, ..old(self).model().files[id@] },
                        ),
                    ).with_chunks(
                        if old(self).model().chunks.contains_key(id@) {
                            old(self).model().chunks.remove(id@).insert(
                                new_id@,
                                old(self).model().chunks[id@],
                            )
                        } else {
                            old(self).model().chunks
                        },
                    )
                    &&& !old(self).model().files.contains_key(id@) ==> final(self).model() == old(
                        self,
                    ).model()
                },
                Err(e) => {
                    &&& final(self).model() == old(self).model()
                    &&& e.error_type == crate::errors::OperationErrorType::DatabaseError
                },
            },
    {
        let new_id = self.id_generator.generate_id();
        let changed = self.tables.change_id(id, new_id.as_str());
        match changed {
            Ok(_) => {
                proof {
                    if new_id@ == id@ && old(self).model().files.contains_key(id@) {
                        let m = old(self).model().files;
                        old(self).tables.lemma_ids_consistent();
                        assert(DirEntityView { id: new_id@, ..m[id@] } == m[id@]);
                        assert(m.remove(id@).insert(id@, m[id@]) =~= m);
                        let c = old(self).model().chunks;
                        if c.contains_key(id@) {
                            assert(c.remove(id@).insert(id@, c[id@]) =~= c);
                        }
                        assert(self.model() =~= old(self).model().with_files(
                            m.remove(id@).insert(id@, DirEntityView { id: new_id@, ..m[id@] }),
                        ).with_chunks(
                            if c.contains_key(id@) {
                                c.remove(id@).insert(id@, c[id@])
                            } else {
                                c
                            },
                        ));
                    }
                }
                Ok(new_id)
            },
            Err(e) => Err(e),
        }
    }

    /// The temporary ids handed out so far, in ordinal order.
    pub fn get_temp_file_ids(&self) -> (r: Vec<String>)
        ensures
            r@.len() == self.id_generator.next_id,
            forall|j: int|
                0 <= j < r@.len() ==> (#[trigger] r@[j])@ == crate::id_generator::temp_id_seq(
                    j as nat,
                ),
    {
        let mut r: Vec<String> = Vec::new();
        let mut j: usize = 0;
        while j < self.id_generator.next_id
            invariant
                j <= self.id_generator.next_id,
                r@.len() == j,
                forall|q: int|
                    0 <= q < j ==> (#[trigger] r@[q])@ == crate::id_generator::temp_id_seq(
                        q as nat,
                    ),
            decreases self.id_generator.next_id - j,
        {
            r.push(crate::id_generator::LocalTempIdGenerator::get_nth_id(j));
            j = j + 1;
        }
        r
    }

    /// The distinct blob ids referenced by the chunk rows of temporary
    /// files, in no significant order.
    pub fn get_temp_chunks(&self) -> (r: Vec<String>)
        requires
            self.wf(),
        ensures
            forall|p: int, q: int| 0 <= p < q < r@.len() ==> (#[trigger] r@[p])@ != (
                #[trigger] r@[q])@,
            forall|j: int| 0 <= j < r@.len() ==> temp_chunk_blob(self.tables.chunks@, (#[trigger] r@[j])@),
            forall|f: Seq<char>, q: int|
                #[trigger] self.model().chunks.contains_key(f)
                    && crate::id_generator::is_local_id_seq(f) && 0 <= q
                    < self.model().chunks[f].len() ==> r@.map_values(|s: String| s@).contains(
                    #[trigger] self.model().chunks[f][q],
                ),
    {
        let mut r: Vec<String> = Vec::new();
        let mut i: usize = 0;
        while i < self.tables.chunks.len()
            invariant
                self.wf(),
                i <= self.tables.chunks@.len(),
                forall|p: int, q: int| 0 <= p < q < r@.len() ==> (#[trigger] r@[p])@ != (
                    #[trigger] r@[q])@,
                forall|j: int| 0 <= j < r@.len() ==> temp_chunk_blob(self.tables.chunks@, (#[trigger] r@[j])@),
                forall|p: int, q: int|
                    0 <= p < i && crate::id_generator::is_local_id_seq(
                        (#[trigger] self.tables.chunks@[p]).0@,
                    ) && 0 <= q < self.tables.chunks@[p].1@.len() ==> r@.map_values(
                        |s: String| s@,
                    ).contains((#[trigger] self.tables.chunks@[p].1@[q])@),
            decreases self.tables.chunks@.len() - i,
        {
            if crate::id_generator::LocalTempIdGenerator::is_local_id(
                self.tables.chunks[i].0.as_str(),
            ) {
                let mut q: usize = 0;
                while q < self.tables.chunks[i].1.len()
                    invariant
                        self.wf(),
                        i < self.tables.chunks@.len(),
                        q <= self.tables.chunks@[i as int].1@.len(),
                        crate::id_generator::is_local_id_seq(self.tables.chunks@[i as int].0@),
                        forall|p2: int, q2: int| 0 <= p2 < q2 < r@.len() ==> (#[trigger] r@[p2])@
                            != (#[trigger] r@[q2])@,
                        forall|j: int| 0 <= j < r@.len() ==> temp_chunk_blob(self.tables.chunks@, (#[trigger] r@[j])@),
                        forall|p: int, q2: int|
                            0 <= p < i && crate::id_generator::is_local_id_seq(
                                (#[trigger] self.tables.chunks@[p]).0@,
                            ) && 0 <= q2 < self.tables.chunks@[p].1@.len() ==> r@.map_values(
                                |s: String| s@,
                            ).contains((#[trigger] self.tables.chunks@[p].1@[q2])@),
                        forall|q2: int|
                            0 <= q2 < q ==> r@.map_values(|s: String| s@).contains(
                                (#[trigger] self.tables.chunks@[i as int].1@[q2])@,
                            ),
                    decreases self.tables.chunks@[i as int].1@.len() - q,
                {
                    let blob = &self.tables.chunks[i].1[q];
                    let ghost oldrv = r@.map_values(|s: String| s@);
                    if !string_vec_contains(&r, blob.as_str()) {
                        r.push(crate::clone_string(blob));
                        proof {
                            let rv = r@.map_values(|s: String| s@);
                            assert(rv[rv.len() - 1] == self.tables.chunks@[i as int].1@[
                            q as int]@);
                            assert forall|p2: int, q2: int|
                                0 <= p2 < q2 < r@.len() implies (#[trigger] r@[p2])@ != (
                            #[trigger] r@[q2])@ by {
                                if q2 == r@.len() - 1 {
                                    assert(oldrv[p2] == r@[p2]@);
                                    assert(oldrv.contains(oldrv[p2]));
                                }
                            };
                            assert forall|x: Seq<char>| oldrv.contains(x) implies rv.contains(
                                x,
                            ) by {
                                let w = choose|w: int| 0 <= w < oldrv.len() && oldrv[w] == x;
                                assert(rv[w] == oldrv[w]);
                            };
                            assert forall|j: int| 0 <= j < r@.len() implies temp_chunk_blob(
                                self.tables.chunks@,
                                (#[trigger] r@[j])@,
                            ) by {
                                if j == r@.len() - 1 {
                                    let row = self.tables.chunks@[i as int].1@.map_values(
                                        |s: String| s@,
                                    );
                                    assert(row[q as int] == r@[j]@);
                                    assert(row.contains(r@[j]@));
                                    assert(crate::id_generator::is_local_id_seq(
                                        (#[trigger] self.tables.chunks@[i as int]).0@,
                                    ));
                                } else {
                                    assert(r@[j]@ == oldrv[j]);
                                }
                            };
                        }
                    }
                    proof {
                        assert(r@.map_values(|s: String| s@).contains(
                            self.tables.chunks@[i as int].1@[q as int]@,
                        )) by {
                            if oldrv.contains(self.tables.chunks@[i as int].1@[q as int]@) {
                                let w = choose|w: int|
                                    0 <= w < oldrv.len() && oldrv[w] == self.tables.chunks@[
                                    i as int].1@[q as int]@;
                                assert(r@.map_values(|s: String| s@)[w] == oldrv[w]);
                            } else {
                                let rv = r@.map_values(|s: String| s@);
                                assert(rv[rv.len() - 1] == self.tables.chunks@[i as int].1@[
                                q as int]@);
                            }
                        };
                    }
                    q = q + 1;
                }
            }
            i = i + 1;
        }
        proof {
            assert forall|f: Seq<char>, q: int|
                #[trigger] self.model().chunks.contains_key(f)
                    && crate::id_generator::is_local_id_seq(f) && 0 <= q
                    < self.model().chunks[f].len() implies r@.map_values(|s: String| s@).contains(
                #[trigger] self.model().chunks[f][q],
            ) by {
                let p = assoc_idx(self.tables.chunks_assoc(), f);
                assert(0 <= p < self.tables.chunks@.len() && self.tables.chunks@[p].0@ == f);
                lemma_assoc_at(self.tables.chunks_assoc(), p);
                assert(self.model().chunks[f][q] == self.tables.chunks@[p].1@[q]@);
            };
        }
        r
    }
}

/// Whether some chunk row of a temporary file references the blob.
pub open spec fn temp_chunk_blob(chunks: Seq<(String, Vec<String>)>, x: Seq<char>) -> bool {
    exists|p: int|
        0 <= p < chunks.len() && crate::id_generator::is_local_id_seq((#[trigger] chunks[p]).0@)
            && chunks[p].1@.map_values(|s: String| s@).contains(x)
}

/// What a successful id rewrite does: the entity and chunk rows of
/// `old_id` stand under `new_id`, which was free; a missing old id or
/// an identical pair leaves the model alone.
pub open spec fn change_id_ok(
    pre: StoreModel,
    post: StoreModel,
    old_id: Seq<char>,
    new_id: Seq<char>,
) -> bool {
    &&& (!pre.files.contains_key(new_id) && !pre.chunks.contains_key(new_id)) || old_id == new_id
    &&& pre.files.contains_key(old_id) && old_id != new_id ==> post == pre.with_files(
        pre.files.remove(old_id).insert(
            new_id,
            DirEntityView { id: new_id, ..pre.files[old_id] },
        ),
    ).with_chunks(
        if pre.chunks.contains_key(old_id) {
            pre.chunks.remove(old_id).insert(new_id, pre.chunks[old_id])
        } else {
            pre.chunks
        },
    )
    &&& !pre.files.contains_key(old_id) || old_id == new_id ==> post == pre
}

/// The model a successful id rewrite leaves behind, as a function.
pub open spec fn after_change_id(pre: StoreModel, old_id: Seq<char>, new_id: Seq<char>)
    -> StoreModel {
    if pre.files.contains_key(old_id) && old_id != new_id {
        pre.with_files(
            pre.files.remove(old_id).insert(
                new_id,
                DirEntityView { id: new_id, ..pre.files[old_id] },
            ),
        ).with_chunks(
            if pre.chunks.contains_key(old_id) {
                pre.chunks.remove(old_id).insert(new_id, pre.chunks[old_id])
            } else {
                pre.chunks
            },
        )
    } else {
        pre
    }
}

/// The file table after upserting the given entities in order, each as
/// the store's upsert stores it.
pub open spec fn after_upserts(
    f: Map<Seq<char>, DirEntityView>,
    ents: Seq<DirEntityView>,
) -> Map<Seq<char>, DirEntityView>
    decreases ents.len(),
{
    if ents.len() == 0 {
        f
    } else {
        let g = after_upserts(f, ents.drop_last());
        g.insert(ents.last().id, stored_dirent_view(g, ents.last()))
    }
}

/// The model after rewriting each temporary ordinal to its assigned id,
/// in ordinal order.
pub open spec fn after_rewrites(pre: StoreModel, assigned: Seq<Seq<char>>) -> StoreModel
    decreases assigned.len(),
{
    if assigned.len() == 0 {
        pre
    } else {
        after_change_id(
            after_rewrites(pre, assigned.drop_last()),
            crate::id_generator::temp_id_seq((assigned.len() - 1) as nat),
            assigned.last(),
        )
    }
}

/// The parent a created entity is stored under: the root stands alone.
pub open spec fn spec_create_parent(id: Seq<char>, parent: Seq<char>) -> Seq<char> {
    if id == "root"@ {
        Seq::<char>::empty()
    } else {
        parent
    }
}

} // verus!
