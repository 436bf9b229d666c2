//! The authoritative server filesystem: version bumps on every
//! mutation, the deferred conflict policy with conflicted-copy naming,
//! and journal replay.

use vstd::prelude::*;

use crate::decimal::{dec_seq, u64_to_dec_string};
use crate::errors::{
    JournalApplyData, JournalApplyError, OperationError, OperationErrorType, OperationResult,
};
use crate::id_generator::RandomHexIdGenerator;
use crate::modify_op::ModifyOperationContentView;
use crate::store::{has_by_name, Store, StoreModel};
use crate::timespec::Timespec;
use crate::types::{DirEntity, DirEntityView, FileType};
use crate::wrapper::StoreWrapper;

verus! {

/// The `YYYY-MM-DD` rendering of the UTC day a Unix-epoch second falls
/// in. The rendering is a function of the second alone; its value is
/// not stated here.
pub uninterp spec fn date_str_of(sec: i64) -> Seq<char>;

/// The `HH-MM-SS` rendering of the UTC time of day of a Unix-epoch
/// second, with dashes so the name survives filesystems that refuse
/// colons. A function of the second alone.
pub uninterp spec fn time_str_of(sec: i64) -> Seq<char>;

/// Relies on `chrono::DateTime::from_timestamp` and `DateTime::format`
/// with `%Y-%m-%d`: the UTC date rendering of the seconds value, with
/// seconds from the epoch up to the year 9999 always accepted.
#[verifier::external_body]
fn format_utc_date(sec: i64) -> (r: Option<String>)
    ensures
        r is Some ==> r->0@ == date_str_of(sec),
        0 <= sec <= 253402300799 ==> r is Some,
{
    match chrono::DateTime::from_timestamp(sec, 0) {
        Some(dt) => Some(dt.format("%Y-%m-%d").to_string()),
        None => None,
    }
}

/// Relies on `chrono::DateTime::from_timestamp` and `DateTime::format`
/// with `%H-%M-%S`: the UTC time-of-day rendering of the seconds value,
/// with seconds from the epoch up to the year 9999 always accepted.
#[verifier::external_body]
fn format_utc_time(sec: i64) -> (r: Option<String>)
    ensures
        r is Some ==> r->0@ == time_str_of(sec),
        0 <= sec <= 253402300799 ==> r is Some,
{
    match chrono::DateTime::from_timestamp(sec, 0) {
        Some(dt) => Some(dt.format("%H-%M-%S").to_string()),
        None => None,
    }
}

/// Where a name splits into stem and extension: the position of the
/// last dot, when it is neither first nor absent; otherwise the whole
/// name is the stem.
pub open spec fn split_point(name: Seq<char>) -> int {
    if exists|i: int| 1 <= i < name.len() && name[i] == '.' {
        choose|i: int|
            1 <= i < name.len() && name[i] == '.' && (forall|j: int|
                i < j < name.len() ==> name[j] != '.')
    } else {
        name.len() as int
    }
}

/// The stem of a name: everything before the extension.
pub open spec fn stem_of(name: Seq<char>) -> Seq<char> {
    name.subrange(0, split_point(name))
}

/// The extension of a name, dot included; empty when there is none.
pub open spec fn ext_of(name: Seq<char>) -> Seq<char> {
    name.subrange(split_point(name), name.len() as int)
}

/// The conflicted-copy candidate ladder: the name itself, then the name
/// dated, then dated and timed, then numbered.
pub open spec fn conflict_candidate(name: Seq<char>, t: Timespec, n: int) -> Seq<char> {
    let stem = stem_of(name);
    let ext = ext_of(name);
    let d = date_str_of(t.sec);
    let tm = time_str_of(t.sec);
    if n == 0 {
        name
    } else if n == 1 {
        stem + " (Conflicted copy "@ + d + ")"@ + ext
    } else if n == 2 {
        stem + " (Conflicted copy "@ + d + " "@ + tm + ")"@ + ext
    } else {
        stem + " (Conflicted copy "@ + d + " "@ + tm + ") ("@ + dec_seq((n - 1) as nat) + ") "@
            + ext
    }
}

/// Splits a name at the extension dot.
fn split_name(name: &str) -> (r: (String, String))
    ensures
        r.0@ == stem_of(name@),
        r.1@ == ext_of(name@),
{
    let n = name.unicode_len();
    let mut dot: usize = n;
    let mut i: usize = n;
    while i > 1
        invariant
            i <= n,
            dot <= n,
            n == name@.len(),
            dot == n ==> forall|j: int| i <= j < n ==> name@[j] != '.',
            dot < n ==> i <= dot && 1 <= dot && name@[dot as int] == '.' && (forall|j: int|
                dot < j < n ==> name@[j] != '.'),
        decreases i,
    {
        i = i - 1;
        if dot == n && name.get_char(i) == '.' {
            dot = i;
        }
    }
    proof {
        if dot == n {
            if exists|k: int| 1 <= k < name@.len() && name@[k] == '.' {
                let k = choose|k: int| 1 <= k < name@.len() && name@[k] == '.';
                assert(false);
            }
            assert(split_point(name@) == name@.len() as int);
        } else {
            assert(name@[dot as int] == '.');
            assert(split_point(name@) == dot as int) by {
                assert(exists|k: int| 1 <= k < name@.len() && name@[k] == '.') by {
                    assert(name@[dot as int] == '.');
                };
                let c = split_point(name@);
                assert(1 <= c < name@.len() && name@[c] == '.' && (forall|j: int|
                    c < j < name@.len() ==> name@[j] != '.'));
                if c < dot {
                    assert(name@[dot as int] != '.');
                } else if c > dot {
                    assert(name@[c] != '.');
                }
            };
        }
    }
    let stem = substring_chars(name, 0, dot);
    let ext = substring_chars(name, dot, n);
    (stem, ext)
}

/// The characters `[from, to)` of a string, as a new string.
fn substring_chars(s: &str, from: usize, to: usize) -> (r: String)
    requires
        from <= to <= s@.len(),
    ensures
        r@ == s@.subrange(from as int, to as int),
{
    let mut r = String::new();
    let mut i: usize = from;
    proof {
        assert(r@ =~= s@.subrange(from as int, from as int));
    }
    while i < to
        invariant
            from <= i <= to <= s@.len(),
            r@ == s@.subrange(from as int, i as int),
        decreases to - i,
    {
        let c = s.get_char(i);
        push_char(&mut r, c);
        proof {
            assert(r@ =~= s@.subrange(from as int, i + 1));
        }
        i = i + 1;
    }
    r
}

/// Relies on `String::push`: appends exactly one character.
#[verifier::external_body]
fn push_char(s: &mut String, c: char)
    ensures
        final(s)@ == old(s)@.push(c),
{
    s.push(c);
}

/// A file table with an entity's content version bumped, and with it
/// its dirent version; absent ids leave the table alone.
pub open spec fn bump_cv_files(
    f: Map<Seq<char>, DirEntityView>,
    k: Seq<char>,
) -> Map<Seq<char>, DirEntityView> {
    if f.contains_key(k) {
        f.insert(
            k,
            DirEntityView {
                dirent_version: crate::store::bump(f[k].dirent_version),
                content_version: crate::store::bump(f[k].content_version),
                ..f[k]
            },
        )
    } else {
        f
    }
}

/// A file table with an entity's dirent version bumped.
pub open spec fn bump_dv_files(
    f: Map<Seq<char>, DirEntityView>,
    k: Seq<char>,
) -> Map<Seq<char>, DirEntityView> {
    if f.contains_key(k) {
        f.insert(
            k,
            DirEntityView { dirent_version: crate::store::bump(f[k].dirent_version), ..f[k] },
        )
    } else {
        f
    }
}

/// Whether `nc` is the name the conflict policy resolves to: the first
/// free rung of the candidate ladder.
pub open spec fn is_resolved_name(
    m: StoreModel,
    parent: Seq<char>,
    name: Seq<char>,
    t: Timespec,
    nc: Seq<char>,
) -> bool {
    exists|n: int|
        {
            &&& 0 <= n
            &&& nc == #[trigger] conflict_candidate(name, t, n)
            &&& !has_by_name(m.files, parent, nc)
            &&& forall|k: int|
                0 <= k < n ==> has_by_name(m.files, parent, #[trigger] conflict_candidate(
                    name,
                    t,
                    k,
                ))
        }
}

/// A deferred create succeeded: some conflict-resolved name was used.
pub open spec fn deferred_create_ok(
    pre: StoreModel,
    post: StoreModel,
    parent: Seq<char>,
    t: Timespec,
    name: Seq<char>,
    file_type: FileType,
    mode: u16,
    dev: u32,
    r: OperationResult<Seq<char>>,
) -> bool {
    exists|nc: Seq<char>|
        #[trigger] is_resolved_name(pre, parent, name, t, nc) && server_create_post(
            pre,
            post,
            parent,
            t,
            nc,
            file_type,
            mode,
            dev,
            r,
        )
}

/// A deferred symlink creation succeeded under a conflict-resolved name.
pub open spec fn deferred_symlink_ok(
    pre: StoreModel,
    post: StoreModel,
    parent: Seq<char>,
    t: Timespec,
    name: Seq<char>,
    link: Seq<char>,
    r: OperationResult<Seq<char>>,
) -> bool {
    exists|nc: Seq<char>|
        #[trigger] is_resolved_name(pre, parent, name, t, nc) && server_symlink_post(
            pre,
            post,
            parent,
            t,
            nc,
            link,
            r,
        )
}

/// A deferred rename succeeded under a conflict-resolved name.
pub open spec fn deferred_rename_ok(
    pre: StoreModel,
    post: StoreModel,
    id: Seq<char>,
    t: Timespec,
    new_parent: Seq<char>,
    new_name: Seq<char>,
    r: OperationResult<Seq<char>>,
) -> bool {
    exists|nc: Seq<char>|
        #[trigger] is_resolved_name(pre, new_parent, new_name, t, nc) && server_rename_post(
            pre,
            post,
            id,
            t,
            new_parent,
            nc,
            r,
        )
}

/// What creating a file entity on the server does: the parent's content
/// version is bumped, the entity appears with fresh versions, and the
/// parent's modification and change times are touched.
pub open spec fn server_create_post(
    pre: StoreModel,
    post: StoreModel,
    parent: Seq<char>,
    t: Timespec,
    name: Seq<char>,
    file_type: FileType,
    mode: u16,
    dev: u32,
    r: OperationResult<Seq<char>>,
) -> bool {
    match r {
        Ok(rid) => {
            &&& pre.files.contains_key(parent)
            &&& pre.files[parent].stat.file_type == FileType::Directory
            &&& !pre.files.contains_key(rid)
            &&& !has_by_name(pre.files, parent, name)
            &&& post == pre.with_files(
                crate::wrapper::after_update_time(
                    bump_cv_files(pre.files, parent).insert(
                        rid,
                        crate::store::new_entity_view(
                            rid,
                            crate::store::spec_create_parent(rid, parent),
                            name,
                            file_type,
                            mode,
                            dev,
                            t,
                        ),
                    ),
                    parent,
                    t,
                    false,
                    true,
                    true,
                ),
            )
        },
        Err(e) => e.error_type == OperationErrorType::FileDoesNotExist || e.error_type
            == OperationErrorType::DatabaseError,
    }
}

/// What removing an entity on the server does: the parent's content
/// version is bumped, the row disappears, and the parent's times are
/// touched.
pub open spec fn server_remove_post(
    pre: StoreModel,
    post: StoreModel,
    id: Seq<char>,
    t: Timespec,
    directory: bool,
    r: OperationResult<Seq<char>>,
) -> bool {
    match r {
        Ok(_) => {
            &&& pre.files.contains_key(id)
            &&& (directory ==> !(exists|k: Seq<char>|
                #[trigger] pre.files.contains_key(k) && pre.files[k].parent == id))
            &&& post == pre.with_files(
                crate::wrapper::after_update_time(
                    bump_cv_files(pre.files, pre.files[id].parent).remove(id),
                    pre.files[id].parent,
                    t,
                    false,
                    true,
                    true,
                ),
            )
        },
        Err(e) => {
            &&& post == pre
            &&& (e.error_type == OperationErrorType::FileDoesNotExist || e.error_type
                == OperationErrorType::DirectoryNotEmpty)
            &&& (e.error_type == OperationErrorType::FileDoesNotExist <==> !pre.files.contains_key(
                id,
            ))
            &&& (directory && pre.files.contains_key(id) ==> (e.error_type
                == OperationErrorType::DirectoryNotEmpty <==> exists|k: Seq<char>|
                #[trigger] pre.files.contains_key(k) && pre.files[k].parent == id))
        },
    }
}

/// What renaming an entity on the server does: both parents' content
/// versions and the entity's dirent version are bumped, the entity
/// moves, and the times are touched.
pub open spec fn server_rename_post(
    pre: StoreModel,
    post: StoreModel,
    id: Seq<char>,
    t: Timespec,
    new_parent: Seq<char>,
    new_name: Seq<char>,
    r: OperationResult<Seq<char>>,
) -> bool {
    match r {
        Ok(_) => {
            &&& pre.files.contains_key(id)
            &&& !(exists|k: Seq<char>|
                #[trigger] pre.files.contains_key(k) && k != id && pre.files[k].parent
                    == new_parent && pre.files[k].name == new_name)
            &&& ({
                let f1 = bump_cv_files(pre.files, pre.files[id].parent);
                let f2 = bump_cv_files(f1, new_parent);
                let f3 = bump_dv_files(f2, id);
                let f4 = f3.insert(
                    id,
                    DirEntityView { parent: new_parent, name: new_name, ..f3[id] },
                );
                let f5 = crate::wrapper::after_update_time(
                    f4,
                    pre.files[id].parent,
                    t,
                    false,
                    true,
                    true,
                );
                let f6 = crate::wrapper::after_update_time(f5, new_parent, t, false, true, true);
                let f7 = crate::wrapper::after_update_time(f6, id, t, false, false, true);
                post == pre.with_files(f7)
            })
        },
        Err(e) => e.error_type == OperationErrorType::FileDoesNotExist || e.error_type
            == OperationErrorType::DatabaseError,
    }
}

/// What a server set-attributes does: a size-bearing change bumps the
/// content version, any other the dirent version, and the present
/// fields replace the stored ones.
pub open spec fn server_setattr_post(
    pre: StoreModel,
    post: StoreModel,
    id: Seq<char>,
    t: Timespec,
    mode: Option<u16>,
    uid: Option<u32>,
    gid: Option<u32>,
    size: Option<u64>,
    atim: Option<Timespec>,
    mtim: Option<Timespec>,
    r: OperationResult<Seq<char>>,
) -> bool {
    match r {
        Ok(_) => {
            &&& pre.files.contains_key(id)
            &&& ({
                let f1 = if size is Some {
                    bump_cv_files(pre.files, id)
                } else {
                    bump_dv_files(pre.files, id)
                };
                post.files == f1.insert(
                    id,
                    crate::store::apply_attrs_view(
                        f1[id],
                        mode,
                        size,
                        atim,
                        crate::wrapper::spec_setattr_mtim(mtim, size, t),
                        crate::wrapper::spec_setattr_ctim(mode, uid, gid, size, t),
                    ),
                )
            })
            &&& post.journal == pre.journal
            &&& (size is Some ==> crate::wrapper::chunk_count(post, id)
                == crate::wrapper::spec_chunk_count_for(size->0 as int))
            &&& (size is None ==> post.chunks == pre.chunks)
            &&& (forall|k: Seq<char>|
                #[trigger] pre.blobs.contains_key(k) ==> post.blobs.contains_key(k)
                    && post.blobs[k] == pre.blobs[k])
        },
        Err(e) => e.error_type == OperationErrorType::FileDoesNotExist || e.error_type
            == OperationErrorType::BlobDoesNotExist || e.error_type
            == OperationErrorType::DatabaseError,
    }
}

/// What a server write does: the content version is bumped and the
/// write lands as the store wrapper lays it down.
pub open spec fn server_write_post(
    pre: StoreModel,
    post: StoreModel,
    id: Seq<char>,
    t: Timespec,
    offset: i64,
    data: Seq<u8>,
    r: OperationResult<Seq<char>>,
) -> bool {
    match r {
        Ok(_) => {
            &&& pre.files.contains_key(id)
            &&& 0 <= offset
            &&& data.len() > 0 ==> {
                let b = crate::BLOB_SIZE as int;
                let first = offset as int / b;
                let last = (offset + data.len() - 1) / b;
                let bumped = pre.with_files(bump_cv_files(pre.files, id));
                &&& post.files == crate::wrapper::after_update_time(
                    bump_cv_files(pre.files, id).insert(
                        id,
                        crate::store::apply_attrs_view(
                            bump_cv_files(pre.files, id)[id],
                            None,
                            Some(
                                crate::wrapper::max_int(
                                    pre.files[id].stat.size as int,
                                    offset + data.len(),
                                ) as u64,
                            ),
                            None,
                            None,
                            None,
                        ),
                    ),
                    id,
                    t,
                    false,
                    true,
                    true,
                )
                &&& crate::wrapper::chunk_count(post, id) == crate::wrapper::max_int(
                    crate::wrapper::chunk_count(pre, id),
                    last + 1,
                )
                &&& forall|c: int|
                    first <= c <= last ==> #[trigger] crate::wrapper::padded_chunk(post, id, c)
                        == crate::wrapper::overlay(
                        crate::wrapper::write_base(pre, id, c),
                        offset - c * b,
                        data,
                    )
                &&& forall|k: Seq<char>|
                    #[trigger] pre.blobs.contains_key(k) ==> post.blobs.contains_key(k)
                        && post.blobs[k] == pre.blobs[k]
            }
        },
        Err(e) => e.error_type == OperationErrorType::FileDoesNotExist || e.error_type
            == OperationErrorType::DatabaseError,
    }
}

/// The authoritative server filesystem: a store whose ids are random,
/// with deterministic version bumps and the deferred conflict policy.
pub struct RemoteFs {
    pub store: StoreWrapper<RandomHexIdGenerator>,
}

impl RemoteFs {
    pub open spec fn model(self) -> StoreModel {
        self.store.model()
    }

    pub open spec fn inv(self) -> bool {
        self.store.wf()
    }

    pub fn new(store: Store<RandomHexIdGenerator>) -> (r: OperationResult<RemoteFs>)
        requires
            store.wf(),
        ensures
            match r {
                Ok(fs) => fs.inv(),
                Err(e) => e.error_type == OperationErrorType::DatabaseError,
            },
    {
        let mut wrapped = StoreWrapper::new(store);
        let t = crate::timespec::now();
        match wrapped.inner.create_root_directory(493, t) {
            Ok(_) => Ok(RemoteFs { store: wrapped }),
            Err(e) => Err(e),
        }
    }

    /// The conflict policy's name for a newcomer at `(parent, name)`:
    /// the name itself when free, else the first free rung of the
    /// conflicted-copy ladder. Fails when the timestamp cannot be
    /// rendered or every rung within one more than the table size is
    /// taken.
    fn get_name_if_conflicts(&self, parent_id: &str, name: &str, timestamp: Timespec) -> (r:
        OperationResult<String>)
        requires
            self.inv(),
        ensures
            !has_by_name(self.model().files, parent_id@, name@) ==> r is Ok,
            match r {
                Ok(nc) => is_resolved_name(self.model(), parent_id@, name@, timestamp, nc@),
                Err(e) => e.error_type == OperationErrorType::DatabaseError,
            },
    {
        if !self.store.file_exists_by_name(parent_id, name) {
            proof {
                assert(conflict_candidate(name@, timestamp, 0) == name@);
                assert(is_resolved_name(self.model(), parent_id@, name@, timestamp, name@));
            }
            return Ok(String::from_str(name));
        }
        let date = match format_utc_date(timestamp.sec) {
            Some(s) => s,
            None => {
                return Err(
                    OperationError::new(
                        OperationErrorType::DatabaseError,
                        String::from_str("timestamp out of range"),
                    ),
                );
            },
        };
        let time = match format_utc_time(timestamp.sec) {
            Some(s) => s,
            None => {
                return Err(
                    OperationError::new(
                        OperationErrorType::DatabaseError,
                        String::from_str("timestamp out of range"),
                    ),
                );
            },
        };
        let (stem, ext) = split_name(name);
        let table_len = self.store.inner.tables.files.len() as u64;
        let bound: u64 = if table_len < 18446744073709551612 {
            table_len + 3
        } else {
            table_len
        };
        let mut n: u64 = 1;
        while n < bound
            invariant
                self.inv(),
                1 <= n <= bound,
                stem@ == stem_of(name@),
                ext@ == ext_of(name@),
                date@ == date_str_of(timestamp.sec),
                time@ == time_str_of(timestamp.sec),
                forall|k: int|
                    0 <= k < n ==> has_by_name(
                        self.model().files,
                        parent_id@,
                        #[trigger] conflict_candidate(name@, timestamp, k),
                    ),
            decreases bound - n,
        {
            let candidate = build_candidate(
                stem.as_str(),
                ext.as_str(),
                date.as_str(),
                time.as_str(),
                n,
                Ghost(name@),
                Ghost(timestamp),
            );
            if !self.store.file_exists_by_name(parent_id, candidate.as_str()) {
                proof {
                    assert(is_resolved_name(
                        self.model(),
                        parent_id@,
                        name@,
                        timestamp,
                        candidate@,
                    ));
                }
                return Ok(candidate);
            }
            n = n + 1;
        }
        Err(
            OperationError::new(
                OperationErrorType::DatabaseError,
                String::from_str("no free conflicted-copy name"),
            ),
        )
    }
}

/// What creating a symlink on the server does: as a create, with the
/// link's bytes as the new entity's content.
pub open spec fn server_symlink_post(
    pre: StoreModel,
    post: StoreModel,
    parent: Seq<char>,
    t: Timespec,
    name: Seq<char>,
    link: Seq<char>,
    r: OperationResult<Seq<char>>,
) -> bool {
    match r {
        Ok(rid) => {
            &&& pre.files.contains_key(parent)
            &&& pre.files[parent].stat.file_type == FileType::Directory
            &&& !pre.files.contains_key(rid)
            &&& post.files.contains_key(rid)
            &&& post.files[rid].stat.file_type == FileType::Symlink
            &&& post.files[rid].stat.mode == 511
            &&& post.files[rid].name == name
            &&& post.files[rid].parent == crate::store::spec_create_parent(rid, parent)
            &&& post.files[rid].stat.size == vstd::utf8::encode_utf8(link).len()
            &&& post.journal == pre.journal
            &&& (forall|k: Seq<char>|
                #[trigger] pre.blobs.contains_key(k) ==> post.blobs.contains_key(k)
                    && post.blobs[k] == pre.blobs[k])
        },
        Err(e) => e.error_type == OperationErrorType::FileDoesNotExist || e.error_type
            == OperationErrorType::DatabaseError,
    }
}

impl RemoteFs {
    /// Requires the parent to be a present directory and the name to be
    /// free, then bumps the parent's content version and creates the
    /// entity.
    fn create_file(
        &mut self,
        parent_id: &str,
        timestamp: Timespec,
        name: &str,
        file_type: FileType,
        mode: u16,
        dev: u32,
    ) -> (r: OperationResult<String>)
        requires
            old(self).inv(),
        ensures
            final(self).inv(),
            final(self).store.inner.saved == old(self).store.inner.saved,
            final(self).store.inner.tables.next_journal_seq == old(self).store.inner.tables.next_journal_seq,
            server_create_post(
                old(self).model(),
                final(self).model(),
                parent_id@,
                timestamp,
                name@,
                file_type,
                mode,
                dev,
                crate::modify_op_handler::id_of(r),
            ),
    {
        let parent = self.store.query_file(parent_id)?;
        match parent.stat.file_type {
            FileType::Directory => {},
            _ => {
                return Err(
                    OperationError::new(
                        OperationErrorType::FileDoesNotExist,
                        String::from_str("parent is not a directory"),
                    ),
                );
            },
        }
        if self.store.file_exists_by_name(parent_id, name) {
            return Err(
                OperationError::new(
                    OperationErrorType::DatabaseError,
                    String::from_str("directory entry already present"),
                ),
            );
        }
        self.store.inner.tables.increment_content_version(parent_id);
        let r = self.store.create_file(parent_id, timestamp, name, file_type, mode, dev);
        match r {
            Ok(rid) => {
                proof {
                    assert(final(self).model() == old(self).model().with_files(
                        crate::wrapper::after_update_time(
                            bump_cv_files(old(self).model().files, parent_id@).insert(
                                rid@,
                                crate::store::new_entity_view(
                                    rid@,
                                    crate::store::spec_create_parent(rid@, parent_id@),
                                    name@,
                                    file_type,
                                    mode,
                                    dev,
                                    timestamp,
                                ),
                            ),
                            parent_id@,
                            timestamp,
                            false,
                            true,
                            true,
                        ),
                    ));
                }
                Ok(rid)
            },
            Err(e) => Err(e),
        }
    }

    /// As a create, then writes the link target as the new entity's
    /// content.
    fn create_symlink(
        &mut self,
        parent_id: &str,
        timestamp: Timespec,
        name: &str,
        link: &str,
    ) -> (r: OperationResult<String>)
        requires
            old(self).inv(),
            vstd::utf8::encode_utf8(link@).len() + crate::BLOB_SIZE <= usize::MAX,
        ensures
            final(self).inv(),
            final(self).store.inner.saved == old(self).store.inner.saved,
            final(self).store.inner.tables.next_journal_seq == old(self).store.inner.tables.next_journal_seq,
            server_symlink_post(
                old(self).model(),
                final(self).model(),
                parent_id@,
                timestamp,
                name@,
                link@,
                crate::modify_op_handler::id_of(r),
            ),
    {
        let parent = self.store.query_file(parent_id)?;
        match parent.stat.file_type {
            FileType::Directory => {},
            _ => {
                return Err(
                    OperationError::new(
                        OperationErrorType::FileDoesNotExist,
                        String::from_str("parent is not a directory"),
                    ),
                );
            },
        }
        if self.store.file_exists_by_name(parent_id, name) {
            return Err(
                OperationError::new(
                    OperationErrorType::DatabaseError,
                    String::from_str("directory entry already present"),
                ),
            );
        }
        self.store.inner.tables.increment_content_version(parent_id);
        let r = self.store.create_symlink(parent_id, timestamp, name, link);
        match r {
            Ok(rid) => Ok(rid),
            Err(e) => Err(e),
        }
    }

    /// Bumps the parent's content version, then removes the entity; a
    /// directory must be empty.
    fn remove_entity(&mut self, id: &str, timestamp: Timespec, directory: bool) -> (r:
        OperationResult<()>)
        requires
            old(self).inv(),
        ensures
            final(self).inv(),
            final(self).store.inner.saved == old(self).store.inner.saved,
            final(self).store.inner.tables.next_journal_seq == old(self).store.inner.tables.next_journal_seq,
            server_remove_post(
                old(self).model(),
                final(self).model(),
                id@,
                timestamp,
                directory,
                crate::modify_op_handler::with_id(r, id@),
            ),
    {
        let dirent = self.store.query_file(id)?;
        if directory {
            if self.store.any_child_exists(id) {
                return Err(crate::errors::OperationError::directory_not_empty());
            }
        }
        self.store.inner.tables.increment_content_version(dirent.parent.as_str());
        let r = if directory {
            self.store.remove_directory(id, timestamp)
        } else {
            self.store.remove_file(id, timestamp)
        };
        match r {
            Ok(_) => Ok(()),
            Err(e) => {
                proof {
                    assert(false);
                }
                Err(e)
            },
        }
    }

    /// Bumps both parents' content versions and the entity's dirent
    /// version, then moves it.
    fn rename(
        &mut self,
        id: &str,
        timestamp: Timespec,
        new_parent: &str,
        new_name: &str,
    ) -> (r: OperationResult<()>)
        requires
            old(self).inv(),
        ensures
            final(self).inv(),
            final(self).store.inner.saved == old(self).store.inner.saved,
            final(self).store.inner.tables.next_journal_seq == old(self).store.inner.tables.next_journal_seq,
            server_rename_post(
                old(self).model(),
                final(self).model(),
                id@,
                timestamp,
                new_parent@,
                new_name@,
                crate::modify_op_handler::with_id(r, id@),
            ),
    {
        let dirent = self.store.query_file(id)?;
        match self.store.try_query_file_by_name(new_parent, new_name) {
            Some(other) => {
                if !crate::str_eq(other.id.as_str(), id) {
                    return Err(
                        OperationError::new(
                            OperationErrorType::DatabaseError,
                            String::from_str("directory entry already present"),
                        ),
                    );
                }
            },
            None => {},
        }
        self.store.inner.tables.increment_content_version(dirent.parent.as_str());
        self.store.inner.tables.increment_content_version(new_parent);
        self.store.inner.tables.increment_dirent_version(id);
        let r = self.store.rename(id, timestamp, new_parent, new_name);
        match r {
            Ok(_) => Ok(()),
            Err(e) => Err(e),
        }
    }

    /// Bumps the fitting version, then applies the attribute change.
    fn set_attributes(
        &mut self,
        id: &str,
        timestamp: Timespec,
        mode: Option<u16>,
        uid: Option<u32>,
        gid: Option<u32>,
        size: Option<u64>,
        atim: Option<Timespec>,
        mtim: Option<Timespec>,
    ) -> (r: OperationResult<()>)
        requires
            old(self).inv(),
            size is Some ==> size->0 / (crate::BLOB_SIZE as u64) < usize::MAX - 1,
        ensures
            final(self).inv(),
            final(self).store.inner.saved == old(self).store.inner.saved,
            final(self).store.inner.tables.next_journal_seq == old(self).store.inner.tables.next_journal_seq,
            server_setattr_post(
                old(self).model(),
                final(self).model(),
                id@,
                timestamp,
                mode,
                uid,
                gid,
                size,
                atim,
                mtim,
                crate::modify_op_handler::with_id(r, id@),
            ),
    {
        let _dirent = self.store.query_file(id)?;
        match size {
            Some(_) => self.store.inner.tables.increment_content_version(id),
            None => self.store.inner.tables.increment_dirent_version(id),
        }
        let r = self.store.set_attributes(id, timestamp, mode, uid, gid, size, atim, mtim);
        match r {
            Ok(_) => Ok(()),
            Err(e) => Err(e),
        }
    }

    /// Bumps the content version, then lays the write down.
    fn write(&mut self, id: &str, timestamp: Timespec, offset: i64, data: &Vec<u8>) -> (r:
        OperationResult<()>)
        requires
            old(self).inv(),
            0 <= offset,
            offset + data@.len() + crate::BLOB_SIZE <= usize::MAX,
        ensures
            final(self).inv(),
            final(self).store.inner.saved == old(self).store.inner.saved,
            final(self).store.inner.tables.next_journal_seq == old(self).store.inner.tables.next_journal_seq,
            server_write_post(
                old(self).model(),
                final(self).model(),
                id@,
                timestamp,
                offset,
                data@,
                crate::modify_op_handler::with_id(r, id@),
            ),
    {
        let _dirent = self.store.query_file(id)?;
        self.store.inner.tables.increment_content_version(id);
        let r = self.store.write(id, timestamp, offset as usize, data.as_slice());
        match r {
            Ok(_) => Ok(()),
            Err(e) => {
                match e.error_type {
                    OperationErrorType::FileDoesNotExist => {
                        proof {
                            assert(false);
                        }
                        Err(e)
                    },
                    _ => Err(e),
                }
            },
        }
    }
}

/// What a deferred application does, over store models: name clashes
/// resolve through the conflicted-copy policy for creates and renames,
/// and size-bearing attribute changes and writes are held to the
/// content version the client observed.
pub open spec fn deferred_model_post(
    pre: StoreModel,
    post: StoreModel,
    id: Seq<char>,
    timestamp: Timespec,
    dirent_version: i64,
    content_version: i64,
    content: ModifyOperationContentView,
    r: OperationResult<Seq<char>>,
) -> bool {
        match content {
            ModifyOperationContentView::CreateFileOperation(o) => {
                &&& (r is Ok ==> deferred_create_ok(
                    pre,
                    post,
                    id,
                    timestamp,
                    o.name,
                    o.file_type,
                    o.perm,
                    o.dev,
                    r,
                ))
                &&& (r is Err ==> (r->Err_0.error_type == OperationErrorType::FileDoesNotExist
                    || r->Err_0.error_type == OperationErrorType::DatabaseError))
            },
            ModifyOperationContentView::CreateSymlinkOperation(o) => {
                &&& (r is Ok ==> deferred_symlink_ok(
                    pre,
                    post,
                    id,
                    timestamp,
                    o.name,
                    o.link,
                    r,
                ))
                &&& (r is Err ==> (r->Err_0.error_type == OperationErrorType::FileDoesNotExist
                    || r->Err_0.error_type == OperationErrorType::DatabaseError))
            },
            ModifyOperationContentView::CreateDirectoryOperation(o) => {
                &&& (r is Ok ==> deferred_create_ok(
                    pre,
                    post,
                    id,
                    timestamp,
                    o.name,
                    FileType::Directory,
                    o.perm,
                    0,
                    r,
                ))
                &&& (r is Err ==> (r->Err_0.error_type == OperationErrorType::FileDoesNotExist
                    || r->Err_0.error_type == OperationErrorType::DatabaseError))
            },
            ModifyOperationContentView::RemoveFileOperation(_) => server_remove_post(
                pre,
                post,
                id,
                timestamp,
                false,
                r,
            ),
            ModifyOperationContentView::RemoveDirectoryOperation(_) => server_remove_post(
                pre,
                post,
                id,
                timestamp,
                true,
                r,
            ),
            ModifyOperationContentView::RenameOperation(o) => {
                &&& (r is Ok ==> deferred_rename_ok(
                    pre,
                    post,
                    id,
                    timestamp,
                    o.new_parent,
                    o.new_name,
                    r,
                ))
                &&& (r is Err ==> (r->Err_0.error_type == OperationErrorType::FileDoesNotExist
                    || r->Err_0.error_type == OperationErrorType::DatabaseError))
            },
            ModifyOperationContentView::SetAttributesOperation(o) => {
                let m = pre;
                if m.files.contains_key(id) && o.size is Some && m.files[id].stat.file_type
                    == FileType::RegularFile {
                    if m.files[id].content_version == content_version {
                        server_setattr_post(
                            m,
                            post,
                            id,
                            timestamp,
                            o.perm,
                            o.uid,
                            o.gid,
                            o.size,
                            o.atim,
                            o.mtim,
                            r,
                        )
                    } else if content_version < m.files[id].content_version {
                        r is Err && r->Err_0.error_type == OperationErrorType::ConflictedFile
                            && r->Err_0.details@ == vstd::utf8::encode_utf8(id) && post == m
                    } else {
                        r is Err && r->Err_0.error_type
                            == OperationErrorType::InvalidContentVersion && post == m
                    }
                } else {
                    server_setattr_post(
                        m,
                        post,
                        id,
                        timestamp,
                        o.perm,
                        o.uid,
                        o.gid,
                        if m.files.contains_key(id) && m.files[id].stat.file_type
                            == FileType::RegularFile {
                            o.size
                        } else {
                            None
                        },
                        o.atim,
                        o.mtim,
                        r,
                    )
                }
            },
            ModifyOperationContentView::WriteOperation(o) => {
                let m = pre;
                if m.files.contains_key(id) {
                    if m.files[id].content_version == content_version {
                        server_write_post(
                            m,
                            post,
                            id,
                            timestamp,
                            o.offset,
                            o.data,
                            r,
                        )
                    } else if content_version < m.files[id].content_version {
                        r is Err && r->Err_0.error_type == OperationErrorType::ConflictedFile
                            && r->Err_0.details@ == vstd::utf8::encode_utf8(id) && post == m
                    } else {
                        r is Err && r->Err_0.error_type
                            == OperationErrorType::InvalidContentVersion && post == m
                    }
                } else {
                    r is Err && r->Err_0.error_type == OperationErrorType::FileDoesNotExist
                        && post == m
                }
            },
        }
}

/// The id an operation is applied against during journal replay: a
/// temporary id resolves positionally against the ids assigned to the
/// creates before it; any other id stands as it is.
pub open spec fn resolved_op_id(id: Seq<char>, assigned: Seq<Seq<char>>) -> Seq<char> {
    if crate::id_generator::is_local_id_seq(id) {
        assigned[crate::id_generator::temp_ordinal(id) as int]
    } else {
        id
    }
}

/// Whether an operation's id is resolvable against the ids assigned so
/// far: a temporary ordinal must name an earlier create.
pub open spec fn resolvable_op_id(id: Seq<char>, assigned: Seq<Seq<char>>) -> bool {
    crate::id_generator::is_local_id_seq(id) ==> crate::id_generator::temp_ordinal(id)
        < assigned.len()
}

/// The journal replay of section-four semantics, one operation at a
/// time and in list order: each operation applies in deferred mode
/// against its resolved id; a create appends its newly assigned id; a
/// content conflict is collected, in order, without stopping the
/// replay; nothing else happens.
pub open spec fn replay_rel(
    pre: StoreModel,
    post: StoreModel,
    ops: Seq<crate::modify_op::ModifyOperationView>,
    assigned: Seq<Seq<char>>,
    processed: Seq<Seq<char>>,
    conflicted: Seq<Seq<char>>,
) -> bool
    decreases ops.len(),
{
    if ops.len() == 0 {
        &&& post == pre
        &&& assigned == Seq::<Seq<char>>::empty()
        &&& processed == Seq::<Seq<char>>::empty()
        &&& conflicted == Seq::<Seq<char>>::empty()
    } else {
        exists|
            mid: StoreModel,
            a: Seq<Seq<char>>,
            p: Seq<Seq<char>>,
            c: Seq<Seq<char>>,
            r: OperationResult<Seq<char>>,
        |
            {
                &&& replay_rel(pre, mid, ops.drop_last(), a, p, c)
                &&& #[trigger] replay_extend(
                    mid,
                    post,
                    ops.last(),
                    a,
                    p,
                    c,
                    r,
                    assigned,
                    processed,
                    conflicted,
                )
            }
    }
}

/// A deferred application that failed with a content conflict names the
/// conflicting id in the error's details, and left the model alone.
pub proof fn lemma_conflict_details(
    pre: StoreModel,
    post: StoreModel,
    id: Seq<char>,
    timestamp: Timespec,
    dirent_version: i64,
    content_version: i64,
    content: ModifyOperationContentView,
    e: OperationError,
)
    requires
        deferred_model_post(pre, post, id, timestamp, dirent_version, content_version, content, Err(e)),
        e.error_type == OperationErrorType::ConflictedFile,
    ensures
        e.details@ == vstd::utf8::encode_utf8(id),
        post == pre,
{
    match content {
        ModifyOperationContentView::CreateFileOperation(_) => {
            assert(false);
        },
        ModifyOperationContentView::CreateSymlinkOperation(_) => {
            assert(false);
        },
        ModifyOperationContentView::CreateDirectoryOperation(_) => {
            assert(false);
        },
        ModifyOperationContentView::RemoveFileOperation(_) => {
            assert(false);
        },
        ModifyOperationContentView::RemoveDirectoryOperation(_) => {
            assert(false);
        },
        ModifyOperationContentView::RenameOperation(_) => {
            assert(false);
        },
        ModifyOperationContentView::SetAttributesOperation(_) => {},
        ModifyOperationContentView::WriteOperation(_) => {},
    }
}

/// A whole journal submission replayed: some replay of the operations
/// assigned exactly these ids, and every processed id still present
/// after installation appears among the returned entities.
pub open spec fn replayed_with_entities(
    pre: StoreModel,
    post: StoreModel,
    ops: Seq<crate::modify_op::ModifyOperation>,
    assigned: Seq<String>,
    dir_entities: Seq<crate::types::DirEntity>,
) -> bool {
    exists|m1: StoreModel, p: Seq<Seq<char>>|
        {
            &&& #[trigger] replay_rel(
                pre,
                m1,
                crate::modify_op::ops_views(ops),
                crate::str_views(assigned),
                p,
                Seq::<Seq<char>>::empty(),
            )
            &&& forall|k: Seq<char>|
                p.contains(k) && post.files.contains_key(k) ==> exists|j: int|
                    0 <= j < dir_entities.len() && (#[trigger] dir_entities[j])@.id == k
        }
}

/// One extension of the replay: the step itself together with how it
/// moves the accumulators.
pub open spec fn replay_extend(
    mid: StoreModel,
    post: StoreModel,
    op: crate::modify_op::ModifyOperationView,
    a: Seq<Seq<char>>,
    p: Seq<Seq<char>>,
    c: Seq<Seq<char>>,
    r: OperationResult<Seq<char>>,
    assigned: Seq<Seq<char>>,
    processed: Seq<Seq<char>>,
    conflicted: Seq<Seq<char>>,
) -> bool {
    &&& replay_step(mid, post, op, a, r)
    &&& replay_accumulate(op, a, p, c, r, assigned, processed, conflicted)
}

/// One step of the replay: the operation's id resolves against the ids
/// assigned so far and the operation applies in deferred mode.
pub open spec fn replay_step(
    mid: StoreModel,
    post: StoreModel,
    op: crate::modify_op::ModifyOperationView,
    a: Seq<Seq<char>>,
    r: OperationResult<Seq<char>>,
) -> bool {
    &&& resolvable_op_id(op.id, a)
    &&& deferred_model_post(
        mid,
        post,
        resolved_op_id(op.id, a),
        op.timestamp,
        op.dirent_version,
        op.content_version,
        op.operation,
        r,
    )
}

/// How the replay's accumulators move on one step: a successful create
/// appends its new id, every success is processed, and a content
/// conflict is collected; nothing else continues the replay.
pub open spec fn replay_accumulate(
    op: crate::modify_op::ModifyOperationView,
    a: Seq<Seq<char>>,
    p: Seq<Seq<char>>,
    c: Seq<Seq<char>>,
    r: OperationResult<Seq<char>>,
    assigned: Seq<Seq<char>>,
    processed: Seq<Seq<char>>,
    conflicted: Seq<Seq<char>>,
) -> bool {
    match r {
        Ok(nid) => {
            &&& assigned == if crate::modify_op::is_create_content(op.operation) {
                a.push(nid)
            } else {
                a
            }
            &&& processed == p.push(nid)
            &&& conflicted == c
        },
        Err(e) => {
            &&& e.error_type == OperationErrorType::ConflictedFile
            &&& assigned == a
            &&& processed == p
            &&& conflicted == c.push(resolved_op_id(op.id, a))
        },
    }
}

impl crate::modify_op_handler::OperationHandler for RemoteFs {
    open spec fn handler_inv(self) -> bool {
        self.inv()
    }

    /// The dispatcher never touches the open transaction or the journal
    /// sequence counter.
    open spec fn handler_frame(pre: Self, post: Self) -> bool {
        &&& post.store.inner.saved == pre.store.inner.saved
        &&& post.store.inner.tables.next_journal_seq == pre.store.inner.tables.next_journal_seq
    }

    /// An immediate application is the corresponding authoritative
    /// mutation with its version bumps.
    open spec fn perform_post(
        pre: Self,
        post: Self,
        id: Seq<char>,
        timestamp: Timespec,
        content: ModifyOperationContentView,
        r: OperationResult<Seq<char>>,
    ) -> bool {
        match content {
            ModifyOperationContentView::CreateFileOperation(o) => server_create_post(
                pre.model(),
                post.model(),
                id,
                timestamp,
                o.name,
                o.file_type,
                o.perm,
                o.dev,
                r,
            ),
            ModifyOperationContentView::CreateSymlinkOperation(o) => server_symlink_post(
                pre.model(),
                post.model(),
                id,
                timestamp,
                o.name,
                o.link,
                r,
            ),
            ModifyOperationContentView::CreateDirectoryOperation(o) => server_create_post(
                pre.model(),
                post.model(),
                id,
                timestamp,
                o.name,
                FileType::Directory,
                o.perm,
                0,
                r,
            ),
            ModifyOperationContentView::RemoveFileOperation(_) => server_remove_post(
                pre.model(),
                post.model(),
                id,
                timestamp,
                false,
                r,
            ),
            ModifyOperationContentView::RemoveDirectoryOperation(_) => server_remove_post(
                pre.model(),
                post.model(),
                id,
                timestamp,
                true,
                r,
            ),
            ModifyOperationContentView::RenameOperation(o) => server_rename_post(
                pre.model(),
                post.model(),
                id,
                timestamp,
                o.new_parent,
                o.new_name,
                r,
            ),
            ModifyOperationContentView::SetAttributesOperation(o) => server_setattr_post(
                pre.model(),
                post.model(),
                id,
                timestamp,
                o.perm,
                o.uid,
                o.gid,
                o.size,
                o.atim,
                o.mtim,
                r,
            ),
            ModifyOperationContentView::WriteOperation(o) => server_write_post(
                pre.model(),
                post.model(),
                id,
                timestamp,
                o.offset,
                o.data,
                r,
            ),
        }
    }

    /// A deferred application resolves name clashes through the
    /// conflicted-copy policy for creates and renames, and holds
    /// size-bearing attribute changes and writes to the content version
    /// the client observed.
    open spec fn deferred_post(
        pre: Self,
        post: Self,
        id: Seq<char>,
        timestamp: Timespec,
        dirent_version: i64,
        content_version: i64,
        content: ModifyOperationContentView,
        r: OperationResult<Seq<char>>,
    ) -> bool {
        deferred_model_post(
            pre.model(),
            post.model(),
            id,
            timestamp,
            dirent_version,
            content_version,
            content,
            r,
        )
    }

    fn perform_create_file(
        &mut self,
        parent_id: &str,
        timestamp: Timespec,
        operation: &crate::modify_op::CreateFileOperation,
    ) -> (r: OperationResult<String>) {
        self.create_file(
            parent_id,
            timestamp,
            operation.name.as_str(),
            operation.file_type,
            operation.perm,
            operation.dev,
        )
    }

    fn perform_create_symlink(
        &mut self,
        parent_id: &str,
        timestamp: Timespec,
        operation: &crate::modify_op::CreateSymlinkOperation,
    ) -> (r: OperationResult<String>) {
        let link_len = operation.link.as_str().as_bytes().len();
        proof {
            assert(link_len == vstd::utf8::encode_utf8(operation.link@).len());
        }
        if link_len > usize::MAX - crate::BLOB_SIZE {
            return Err(
                OperationError::new(
                    OperationErrorType::DatabaseError,
                    String::from_str("link target too long"),
                ),
            );
        }
        self.create_symlink(
            parent_id,
            timestamp,
            operation.name.as_str(),
            operation.link.as_str(),
        )
    }

    fn perform_create_directory(
        &mut self,
        parent_id: &str,
        timestamp: Timespec,
        operation: &crate::modify_op::CreateDirectoryOperation,
    ) -> (r: OperationResult<String>) {
        self.create_file(
            parent_id,
            timestamp,
            operation.name.as_str(),
            FileType::Directory,
            operation.perm,
            0,
        )
    }

    fn perform_remove_file(
        &mut self,
        id: &str,
        timestamp: Timespec,
        _operation: &crate::modify_op::RemoveFileOperation,
    ) -> (r: OperationResult<()>) {
        self.remove_entity(id, timestamp, false)
    }

    fn perform_remove_directory(
        &mut self,
        id: &str,
        timestamp: Timespec,
        _operation: &crate::modify_op::RemoveDirectoryOperation,
    ) -> (r: OperationResult<()>) {
        self.remove_entity(id, timestamp, true)
    }

    fn perform_rename(
        &mut self,
        id: &str,
        timestamp: Timespec,
        operation: &crate::modify_op::RenameOperation,
    ) -> (r: OperationResult<()>) {
        self.rename(
            id,
            timestamp,
            operation.new_parent.as_str(),
            operation.new_name.as_str(),
        )
    }

    fn perform_set_attributes(
        &mut self,
        id: &str,
        timestamp: Timespec,
        operation: &crate::modify_op::SetAttributesOperation,
    ) -> (r: OperationResult<()>) {
        match operation.size {
            Some(s) => {
                if s / (crate::BLOB_SIZE as u64) >= (usize::MAX - 1) as u64 {
                    return Err(
                        OperationError::new(
                            OperationErrorType::DatabaseError,
                            String::from_str("size out of range"),
                        ),
                    );
                }
            },
            None => {},
        }
        self.set_attributes(
            id,
            timestamp,
            operation.perm,
            operation.uid,
            operation.gid,
            operation.size,
            operation.atim,
            operation.mtim,
        )
    }

    fn perform_write(
        &mut self,
        id: &str,
        timestamp: Timespec,
        operation: &crate::modify_op::WriteOperation,
    ) -> (r: OperationResult<()>) {
        if operation.offset < 0 {
            return Err(
                OperationError::new(
                    OperationErrorType::DatabaseError,
                    String::from_str("negative write offset"),
                ),
            );
        }
        if operation.offset as u64 > (usize::MAX - crate::BLOB_SIZE) as u64 || operation.data.len()
            > usize::MAX - crate::BLOB_SIZE - (operation.offset as usize) {
            return Err(
                OperationError::new(
                    OperationErrorType::DatabaseError,
                    String::from_str("write out of range"),
                ),
            );
        }
        self.write(id, timestamp, operation.offset, &operation.data)
    }

    fn deferred_create_file(
        &mut self,
        parent_id: &str,
        timestamp: Timespec,
        _dirent_version: i64,
        _content_version: i64,
        operation: &crate::modify_op::CreateFileOperation,
    ) -> (r: OperationResult<String>) {
        let new_name = self.get_name_if_conflicts(
            parent_id,
            operation.name.as_str(),
            timestamp,
        )?;
        let r = self.create_file(
            parent_id,
            timestamp,
            new_name.as_str(),
            operation.file_type,
            operation.perm,
            operation.dev,
        );
        proof {
            let rr = crate::modify_op_handler::id_of(r);
            if r is Ok {
                assert(is_resolved_name(
                    old(self).model(),
                    parent_id@,
                    operation.name@,
                    timestamp,
                    new_name@,
                ));
                assert(server_create_post(
                    old(self).model(),
                    self.model(),
                    parent_id@,
                    timestamp,
                    new_name@,
                    operation.file_type,
                    operation.perm,
                    operation.dev,
                    rr,
                ));
                assert(rr is Ok);
            } else {
                assert(rr is Err);
            }
            if rr is Ok {
                assert(is_resolved_name(
                    old(self).model(),
                    parent_id@,
                    operation@.name,
                    timestamp,
                    new_name@,
                ) && server_create_post(
                    old(self).model(),
                    self.model(),
                    parent_id@,
                    timestamp,
                    new_name@,
                    operation@.file_type,
                    operation@.perm,
                    operation@.dev,
                    rr,
                ));
            }
        }
        r
    }

    #[verifier::rlimit(100)]
    fn deferred_create_symlink(
        &mut self,
        parent_id: &str,
        timestamp: Timespec,
        _dirent_version: i64,
        _content_version: i64,
        operation: &crate::modify_op::CreateSymlinkOperation,
    ) -> (r: OperationResult<String>) {
        let link_len = operation.link.as_str().as_bytes().len();
        proof {
            assert(link_len == vstd::utf8::encode_utf8(operation.link@).len());
        }
        if link_len > usize::MAX - crate::BLOB_SIZE {
            return Err(
                OperationError::new(
                    OperationErrorType::DatabaseError,
                    String::from_str("link target too long"),
                ),
            );
        }
        let new_name = self.get_name_if_conflicts(
            parent_id,
            operation.name.as_str(),
            timestamp,
        )?;
        let r = self.create_symlink(
            parent_id,
            timestamp,
            new_name.as_str(),
            operation.link.as_str(),
        );
        proof {
            let rr = crate::modify_op_handler::id_of(r);
            if r is Ok {
                assert(rr is Ok);
            } else {
                assert(rr is Err);
            }
            if rr is Ok {
                assert(is_resolved_name(
                    old(self).model(),
                    parent_id@,
                    operation@.name,
                    timestamp,
                    new_name@,
                ));
                assert(server_symlink_post(
                    old(self).model(),
                    self.model(),
                    parent_id@,
                    timestamp,
                    new_name@,
                    operation@.link,
                    rr,
                ));
                assert(is_resolved_name(
                    old(self).model(),
                    parent_id@,
                    operation@.name,
                    timestamp,
                    new_name@,
                ) && server_symlink_post(
                    old(self).model(),
                    self.model(),
                    parent_id@,
                    timestamp,
                    new_name@,
                    operation@.link,
                    rr,
                ));
            }
        }
        r
    }

    #[verifier::rlimit(100)]
    fn deferred_create_directory(
        &mut self,
        parent_id: &str,
        timestamp: Timespec,
        _dirent_version: i64,
        _content_version: i64,
        operation: &crate::modify_op::CreateDirectoryOperation,
    ) -> (r: OperationResult<String>) {
        let new_name = self.get_name_if_conflicts(
            parent_id,
            operation.name.as_str(),
            timestamp,
        )?;
        let r = self.create_file(
            parent_id,
            timestamp,
            new_name.as_str(),
            FileType::Directory,
            operation.perm,
            0,
        );
        proof {
            let rr = crate::modify_op_handler::id_of(r);
            if r is Ok {
                assert(rr is Ok);
            } else {
                assert(rr is Err);
            }
            if rr is Ok {
                assert(is_resolved_name(
                    old(self).model(),
                    parent_id@,
                    operation@.name,
                    timestamp,
                    new_name@,
                ));
                assert(server_create_post(
                    old(self).model(),
                    self.model(),
                    parent_id@,
                    timestamp,
                    new_name@,
                    FileType::Directory,
                    operation@.perm,
                    0,
                    rr,
                ));
                assert(is_resolved_name(
                    old(self).model(),
                    parent_id@,
                    operation@.name,
                    timestamp,
                    new_name@,
                ) && server_create_post(
                    old(self).model(),
                    self.model(),
                    parent_id@,
                    timestamp,
                    new_name@,
                    FileType::Directory,
                    operation@.perm,
                    0,
                    rr,
                ));
            }
        }
        r
    }

    fn deferred_remove_file(
        &mut self,
        id: &str,
        timestamp: Timespec,
        _dirent_version: i64,
        _content_version: i64,
        _operation: &crate::modify_op::RemoveFileOperation,
    ) -> (r: OperationResult<()>) {
        self.remove_entity(id, timestamp, false)
    }

    fn deferred_remove_directory(
        &mut self,
        id: &str,
        timestamp: Timespec,
        _dirent_version: i64,
        _content_version: i64,
        _operation: &crate::modify_op::RemoveDirectoryOperation,
    ) -> (r: OperationResult<()>) {
        self.remove_entity(id, timestamp, true)
    }

    #[verifier::rlimit(100)]
    fn deferred_rename(
        &mut self,
        id: &str,
        timestamp: Timespec,
        _dirent_version: i64,
        _content_version: i64,
        operation: &crate::modify_op::RenameOperation,
    ) -> (r: OperationResult<()>) {
        let new_name = self.get_name_if_conflicts(
            operation.new_parent.as_str(),
            operation.new_name.as_str(),
            timestamp,
        )?;
        let r = self.rename(id, timestamp, operation.new_parent.as_str(), new_name.as_str());
        proof {
            let rr = crate::modify_op_handler::with_id(r, id@);
            if r is Ok {
                assert(rr is Ok);
            } else {
                assert(rr is Err);
            }
            if rr is Ok {
                assert(is_resolved_name(
                    old(self).model(),
                    operation@.new_parent,
                    operation@.new_name,
                    timestamp,
                    new_name@,
                ));
                assert(server_rename_post(
                    old(self).model(),
                    self.model(),
                    id@,
                    timestamp,
                    operation@.new_parent,
                    new_name@,
                    rr,
                ));
                assert(is_resolved_name(
                    old(self).model(),
                    operation@.new_parent,
                    operation@.new_name,
                    timestamp,
                    new_name@,
                ) && server_rename_post(
                    old(self).model(),
                    self.model(),
                    id@,
                    timestamp,
                    operation@.new_parent,
                    new_name@,
                    rr,
                ));
            }
        }
        r
    }

    fn deferred_set_attributes(
        &mut self,
        id: &str,
        timestamp: Timespec,
        _dirent_version: i64,
        content_version: i64,
        operation: &crate::modify_op::SetAttributesOperation,
    ) -> (r: OperationResult<()>) {
        let dirent = self.store.query_file(id)?;
        let mut size = operation.size;
        if size.is_some() {
            if dirent.stat.has_size() {
                if dirent.content_version > content_version {
                    return Err(OperationError::conflicted_file(String::from_str(id)));
                }
                if dirent.content_version < content_version {
                    return Err(crate::errors::OperationError::invalid_content_version());
                }
            } else {
                size = None;
            }
        }
        match size {
            Some(s) => {
                if s / (crate::BLOB_SIZE as u64) >= (usize::MAX - 1) as u64 {
                    return Err(
                        OperationError::new(
                            OperationErrorType::DatabaseError,
                            String::from_str("size out of range"),
                        ),
                    );
                }
            },
            None => {},
        }
        self.set_attributes(
            id,
            timestamp,
            operation.perm,
            operation.uid,
            operation.gid,
            size,
            operation.atim,
            operation.mtim,
        )
    }

    fn deferred_write(
        &mut self,
        id: &str,
        timestamp: Timespec,
        _dirent_version: i64,
        content_version: i64,
        operation: &crate::modify_op::WriteOperation,
    ) -> (r: OperationResult<()>) {
        let dirent = self.store.query_file(id)?;
        if dirent.content_version > content_version {
            return Err(OperationError::conflicted_file(String::from_str(id)));
        }
        if dirent.content_version < content_version {
            return Err(crate::errors::OperationError::invalid_content_version());
        }
        if operation.offset < 0 {
            return Err(
                OperationError::new(
                    OperationErrorType::DatabaseError,
                    String::from_str("negative write offset"),
                ),
            );
        }
        if operation.offset as u64 > (usize::MAX - crate::BLOB_SIZE) as u64 || operation.data.len()
            > usize::MAX - crate::BLOB_SIZE - (operation.offset as usize) {
            return Err(
                OperationError::new(
                    OperationErrorType::DatabaseError,
                    String::from_str("write out of range"),
                ),
            );
        }
        self.write(id, timestamp, operation.offset, &operation.data)
    }
}

/// The number of chunks a file has, counted through the store wrapper.
fn chunk_count_of(
    store: &StoreWrapper<RandomHexIdGenerator>,
    id: &str,
) -> (r: usize)
    requires
        store.wf(),
    ensures
        r as int == crate::wrapper::chunk_count(store.model(), id@),
{
    let cs = store.get_chunks(id);
    proof {
        assert(cs@.map_values(|s: String| s@).len() == cs@.len());
    }
    cs.len()
}

/// The ordinal of a temporary id, read defensively off the wire: the
/// prefix, the digits and the machine range are all checked.
fn parse_temp_ordinal(id: &str) -> (r: Option<usize>)
    ensures
        match r {
            Some(n) => crate::id_generator::is_local_id_seq(id@) && n as nat
                == crate::decimal::dec_value(
                crate::id_generator::temp_suffix(id@).subrange(
                    0,
                    crate::id_generator::temp_suffix(id@).len() as int,
                ),
            ),
            None => true,
        },
{
    if !crate::id_generator::LocalTempIdGenerator::is_local_id(id) {
        return None;
    }
    let len = id.unicode_len();
    if len <= 5 {
        return None;
    }
    let mut i: usize = 5;
    let mut n: usize = 0;
    proof {
        assert(crate::id_generator::temp_suffix(id@).subrange(0, 0) =~= Seq::<char>::empty());
    }
    while i < len
        invariant
            5 <= i <= len,
            len == id@.len(),
            crate::id_generator::is_local_id_seq(id@),
            n as nat == crate::decimal::dec_value(
                crate::id_generator::temp_suffix(id@).subrange(0, i - 5),
            ),
        decreases len - i,
    {
        let c = id.get_char(i);
        if !('0' <= c && c <= '9') {
            return None;
        }
        let d = (c as u32 - 48) as usize;
        proof {
            assert('0' as u32 == 48 && '9' as u32 == 57);
            assert(d == crate::decimal::digit_val(id@[i as int]));
        }
        if n > (usize::MAX - d) / 10 {
            return None;
        }
        proof {
            let suffix = crate::id_generator::temp_suffix(id@);
            assert(suffix.subrange(0, i - 4).drop_last() =~= suffix.subrange(0, i - 5));
            assert(suffix.subrange(0, i - 4).last() == id@[i as int]);
        }
        n = n * 10 + d;
        i = i + 1;
    }
    proof {
        let suffix = crate::id_generator::temp_suffix(id@);
        assert(suffix.subrange(0, suffix.len() as int) =~= suffix);
    }
    Some(n)
}

impl RemoteFs {
    /// Replays a journal's operations in order, in deferred mode:
    /// temporary ids are resolved positionally against the ids assigned
    /// to earlier creates, and content conflicts are collected rather
    /// than stopping the replay. Returns the assigned ids and every
    /// processed id, or the collected conflicting ids, or rejects the
    /// journal outright. The caller holds the transaction.
    pub fn apply_journal(&mut self, op_list: &Vec<crate::modify_op::ModifyOperation>) -> (r:
        Result<(Vec<String>, Vec<String>), JournalApplyError>)
        requires
            old(self).inv(),
        ensures
            final(self).inv(),
            final(self).store.inner.saved == old(self).store.inner.saved,
            match r {
                Ok(p) => {
                    &&& p.1@.len() == op_list@.len()
                    &&& p.0@.len() <= op_list@.len()
                    &&& replay_rel(
                        old(self).model(),
                        final(self).model(),
                        op_list@.map_values(|o: crate::modify_op::ModifyOperation| o@),
                        p.0@.map_values(|x: String| x@),
                        p.1@.map_values(|x: String| x@),
                        Seq::<Seq<char>>::empty(),
                    )
                },
                Err(e) => match e {
                    JournalApplyError::ConflictingFiles(ids) => ids@.len() >= 1 && exists|
                        a: Seq<Seq<char>>,
                        p: Seq<Seq<char>>,
                    |
                        #[trigger] replay_rel(
                            old(self).model(),
                            final(self).model(),
                            crate::modify_op::ops_views(op_list@),
                            a,
                            p,
                            crate::str_views(ids@),
                        ),
                    JournalApplyError::MissingBlobs(_) => false,
                    JournalApplyError::InvalidJournal => true,
                },
            },
    {
        let ghost pre0 = old(self).model();
        let ghost opsv = op_list@.map_values(|o: crate::modify_op::ModifyOperation| o@);
        let mut assigned_ids: Vec<String> = Vec::new();
        let mut processed_ids: Vec<String> = Vec::new();
        let mut conflicted: Vec<String> = Vec::new();
        let mut i: usize = 0;
        proof {
            assert(opsv.subrange(0, 0) =~= Seq::<crate::modify_op::ModifyOperationView>::empty());
            assert(assigned_ids@.map_values(|x: String| x@) =~= Seq::<Seq<char>>::empty());
            assert(processed_ids@.map_values(|x: String| x@) =~= Seq::<Seq<char>>::empty());
            assert(conflicted@.map_values(|x: String| x@) =~= Seq::<Seq<char>>::empty());
        }
        while i < op_list.len()
            invariant
                self.inv(),
                self.store.inner.saved == old(self).store.inner.saved,
                i <= op_list@.len(),
                pre0 == old(self).model(),
                opsv == op_list@.map_values(|o: crate::modify_op::ModifyOperation| o@),
                processed_ids@.len() + conflicted@.len() == i,
                assigned_ids@.len() <= i,
                replay_rel(
                    pre0,
                    self.model(),
                    opsv.subrange(0, i as int),
                    assigned_ids@.map_values(|x: String| x@),
                    processed_ids@.map_values(|x: String| x@),
                    conflicted@.map_values(|x: String| x@),
                ),
            decreases op_list@.len() - i,
        {
            let ghost mpre = self.model();
            let ghost av = assigned_ids@.map_values(|x: String| x@);
            let ghost pv = processed_ids@.map_values(|x: String| x@);
            let ghost cv = conflicted@.map_values(|x: String| x@);
            let op = &op_list[i];
            proof {
                assert(op@ == opsv[i as int]);
            }
            let is_create = match &op.operation {
                crate::modify_op::ModifyOperationContent::CreateFileOperation(_) => true,
                crate::modify_op::ModifyOperationContent::CreateSymlinkOperation(_) => true,
                crate::modify_op::ModifyOperationContent::CreateDirectoryOperation(_) => true,
                _ => false,
            };
            proof {
                assert(is_create == crate::modify_op::is_create_content(opsv[i as int].operation));
            }
            let mut resolved = op.duplicate();
            if crate::id_generator::LocalTempIdGenerator::is_local_id(op.id.as_str()) {
                let n = match parse_temp_ordinal(op.id.as_str()) {
                    Some(n) => n,
                    None => {
                        return Err(JournalApplyError::InvalidJournal);
                    },
                };
                proof {
                    let suffix = crate::id_generator::temp_suffix(op.id@);
                    assert(suffix.subrange(0, suffix.len() as int) =~= suffix);
                    assert(n as nat == crate::id_generator::temp_ordinal(op.id@));
                }
                if n >= assigned_ids.len() {
                    return Err(JournalApplyError::InvalidJournal);
                }
                resolved.id = crate::clone_string(&assigned_ids[n]);
                proof {
                    assert(av[n as int] == assigned_ids@[n as int]@);
                    assert(resolved@.id == resolved_op_id(opsv[i as int].id, av));
                    assert(resolvable_op_id(opsv[i as int].id, av));
                }
            }
            proof {
                assert(resolved@.id == resolved_op_id(opsv[i as int].id, av));
                assert(resolvable_op_id(opsv[i as int].id, av));
                assert(resolved@.timestamp == opsv[i as int].timestamp);
                assert(resolved@.dirent_version == opsv[i as int].dirent_version);
                assert(resolved@.content_version == opsv[i as int].content_version);
                assert(resolved@.operation == opsv[i as int].operation);
            }
            let applied = crate::modify_op_handler::OperationApplier::apply_operation_deferred(
                self,
                &resolved,
            );
            proof {
                assert(deferred_model_post(
                    mpre,
                    self.model(),
                    resolved_op_id(opsv[i as int].id, av),
                    opsv[i as int].timestamp,
                    opsv[i as int].dirent_version,
                    opsv[i as int].content_version,
                    opsv[i as int].operation,
                    crate::modify_op_handler::id_of(applied),
                ));
            }
            match applied {
                Ok(new_id) => {
                    let ghost nid = new_id@;
                    if is_create {
                        assigned_ids.push(crate::clone_string(&new_id));
                    }
                    processed_ids.push(new_id);
                    proof {
                        let prefix = opsv.subrange(0, i + 1);
                        assert(prefix.drop_last() =~= opsv.subrange(0, i as int));
                        assert(prefix.last() == opsv[i as int]);
                        assert(processed_ids@.map_values(|x: String| x@) =~= pv.push(nid));
                        if is_create {
                            assert(assigned_ids@.map_values(|x: String| x@) =~= av.push(nid));
                        } else {
                            assert(assigned_ids@.map_values(|x: String| x@) =~= av);
                        }
                        assert(conflicted@.map_values(|x: String| x@) =~= cv);
                        assert(replay_rel(
                            pre0,
                            self.model(),
                            prefix,
                            assigned_ids@.map_values(|x: String| x@),
                            processed_ids@.map_values(|x: String| x@),
                            conflicted@.map_values(|x: String| x@),
                        )) by {
                            assert(replay_rel(pre0, mpre, prefix.drop_last(), av, pv, cv));
                            assert(replay_extend(
                                mpre,
                                self.model(),
                                prefix.last(),
                                av,
                                pv,
                                cv,
                                Ok(nid),
                                assigned_ids@.map_values(|x: String| x@),
                                processed_ids@.map_values(|x: String| x@),
                                conflicted@.map_values(|x: String| x@),
                            ));
                        };
                    }
                },
                Err(e) => {
                    match e.error_type {
                        OperationErrorType::ConflictedFile => {
                            let ghost details_bytes = e.details@;
                            match crate::serialization::bytes_to_string(e.details) {
                                Some(cid) => {
                                    proof {
                                        lemma_conflict_details(
                                            mpre,
                                            self.model(),
                                            resolved_op_id(opsv[i as int].id, av),
                                            opsv[i as int].timestamp,
                                            opsv[i as int].dirent_version,
                                            opsv[i as int].content_version,
                                            opsv[i as int].operation,
                                            e,
                                        );
                                        assert(details_bytes == vstd::utf8::encode_utf8(
                                            resolved_op_id(opsv[i as int].id, av),
                                        ));
                                        assert(vstd::utf8::encode_utf8(cid@) == details_bytes);
                                        crate::lemma_encode_utf8_injective(
                                            cid@,
                                            resolved_op_id(opsv[i as int].id, av),
                                        );
                                        assert(cid@ == resolved_op_id(opsv[i as int].id, av));
                                    }
                                    conflicted.push(cid);
                                    proof {
                                        let prefix = opsv.subrange(0, i + 1);
                                        assert(prefix.drop_last() =~= opsv.subrange(0, i as int));
                                        assert(prefix.last() == opsv[i as int]);
                                        assert(conflicted@.map_values(|x: String| x@) =~= cv.push(
                                            resolved_op_id(opsv[i as int].id, av),
                                        ));
                                        assert(assigned_ids@.map_values(|x: String| x@) =~= av);
                                        assert(processed_ids@.map_values(|x: String| x@) =~= pv);
                                        assert(replay_rel(
                                            pre0,
                                            self.model(),
                                            prefix,
                                            assigned_ids@.map_values(|x: String| x@),
                                            processed_ids@.map_values(|x: String| x@),
                                            conflicted@.map_values(|x: String| x@),
                                        )) by {
                                            assert(replay_rel(
                                                pre0,
                                                mpre,
                                                prefix.drop_last(),
                                                av,
                                                pv,
                                                cv,
                                            ));
                                            assert(replay_extend(
                                                mpre,
                                                self.model(),
                                                prefix.last(),
                                                av,
                                                pv,
                                                cv,
                                                crate::modify_op_handler::id_of(applied),
                                                assigned_ids@.map_values(|x: String| x@),
                                                processed_ids@.map_values(|x: String| x@),
                                                conflicted@.map_values(|x: String| x@),
                                            ));
                                        };
                                    }
                                },
                                None => {
                                    return Err(JournalApplyError::InvalidJournal);
                                },
                            }
                        },
                        _ => {
                            return Err(JournalApplyError::InvalidJournal);
                        },
                    }
                },
            }
            i = i + 1;
        }
        proof {
            assert(opsv.subrange(0, opsv.len() as int) =~= opsv);
        }
        if conflicted.len() > 0 {
            proof {
                assert(crate::modify_op::ops_views(op_list@) =~= opsv);
                assert(crate::str_views(conflicted@) =~= conflicted@.map_values(
                    |x: String| x@,
                ));
                assert(replay_rel(
                    pre0,
                    self.model(),
                    crate::modify_op::ops_views(op_list@),
                    assigned_ids@.map_values(|x: String| x@),
                    processed_ids@.map_values(|x: String| x@),
                    crate::str_views(conflicted@),
                ));
            }
            return Err(JournalApplyError::ConflictingFiles(conflicted));
        }
        proof {
            assert(conflicted@.len() == 0);
            assert(conflicted@.map_values(|x: String| x@) =~= Seq::<Seq<char>>::empty());
        }
        Ok((assigned_ids, processed_ids))
    }

    /// Applies a whole journal submission atomically: the operations
    /// replay in deferred mode; conflicts roll everything back and
    /// report the losing ids; missing blobs roll everything back and
    /// report what to send; otherwise the supplied blobs are stored, the
    /// temporary files' chunk lists installed, and everything commits.
    pub fn apply_full_journal(
        &mut self,
        op_list: &Vec<crate::modify_op::ModifyOperation>,
        chunks: &Vec<Vec<String>>,
        blobs: &Vec<Vec<u8>>,
    ) -> (r: Result<JournalApplyData, JournalApplyError>)
        requires
            old(self).inv(),
            old(self).store.inner.saved is None,
        ensures
            final(self).inv(),
            final(self).store.inner.saved is None,
            match r {
                Ok(data) => {
                    &&& data.assigned_ids@.len() <= op_list@.len()
                    &&& replayed_with_entities(
                        old(self).model(),
                        final(self).model(),
                        op_list@,
                        data.assigned_ids@,
                        data.dir_entities@,
                    )
                    &&& forall|j: int|
                        0 <= j < blobs@.len() ==> final(self).model().blobs.contains_key(
                            crate::blob_id::blob_id_of((#[trigger] blobs@[j])@),
                        ) && final(self).model().blobs[crate::blob_id::blob_id_of(blobs@[j]@)]
                            == crate::blob_id::trim_zeros(blobs@[j]@)
                    &&& forall|i: int|
                        0 <= i < data.assigned_ids@.len() && i < chunks@.len() ==> ((
                        chunks@[i]@.len() > 0 ==> final(self).model().chunks.contains_key(
                            (#[trigger] data.assigned_ids@[i])@,
                        )) && (final(self).model().chunks.contains_key(data.assigned_ids@[i]@)
                            ==> final(self).model().chunks[data.assigned_ids@[i]@]
                            == crate::str_views(chunks@[i]@)))
                    &&& forall|j: int|
                        0 <= j < data.dir_entities@.len() ==> final(self).model().files.contains_key(
                            (#[trigger] data.dir_entities@[j])@.id,
                        ) && final(self).model().files[data.dir_entities@[j]@.id]
                            == data.dir_entities@[j]@
                    &&& forall|p: int, q: int|
                        0 <= p < chunks@.len() && 0 <= q < chunks@[p]@.len() ==> final(self).model().blobs.contains_key((#[trigger] chunks@[p]@[q])@)
                },
                Err(_) => final(self).model() == old(self).model(),
            },
    {
        self.store.inner.transaction_begin();
        let ghost snap = self.store.inner.saved;
        proof {
            assert(self.store.inner.saved_model() == Some(old(self).model()));
        }
        let applied = self.apply_journal(op_list);
        let (assigned_ids, processed_ids) = match applied {
            Ok(p) => p,
            Err(e) => {
                self.store.inner.transaction_rollback();
                return Err(e);
            },
        };
        let ghost m1 = self.model();
        let ghost aseq = assigned_ids@.map_values(|x: String| x@);
        let ghost pseq = processed_ids@.map_values(|x: String| x@);
        proof {
            assert(crate::modify_op::ops_views(op_list@) =~= op_list@.map_values(
                |o: crate::modify_op::ModifyOperation| o@,
            ));
            assert(crate::str_views(assigned_ids@) =~= aseq);
            assert(replay_rel(
                old(self).model(),
                m1,
                crate::modify_op::ops_views(op_list@),
                aseq,
                pseq,
                Seq::<Seq<char>>::empty(),
            ));
        }
        // Positional installation needs the assigned ids pairwise
        // distinct; fresh authoritative ids always are.
        let mut di: usize = 0;
        while di < assigned_ids.len()
            invariant
                self.inv(),
                self.store.inner.saved == snap,
                self.model() == m1,
                di <= assigned_ids@.len(),
                aseq == assigned_ids@.map_values(|x: String| x@),
                forall|x: int, y: int| 0 <= x < y < assigned_ids@.len() && x < di ==> (
                #[trigger] assigned_ids@[x])@ != (#[trigger] assigned_ids@[y])@,
            decreases assigned_ids@.len() - di,
        {
            let mut dj: usize = di + 1;
            while dj < assigned_ids.len()
                invariant
                    self.inv(),
                    self.store.inner.saved == snap,
                    self.model() == m1,
                    di < dj <= assigned_ids@.len() || (di + 1 == dj && dj >= assigned_ids@.len()),
                    di < assigned_ids@.len(),
                    forall|y: int| di < y < dj ==> (#[trigger] assigned_ids@[y])@
                        != assigned_ids@[di as int]@,
                decreases assigned_ids@.len() - dj,
            {
                if crate::str_eq(assigned_ids[di].as_str(), assigned_ids[dj].as_str()) {
                    self.store.inner.transaction_rollback();
                    return Err(JournalApplyError::InvalidJournal);
                }
                dj = dj + 1;
            }
            di = di + 1;
        }
        // Persist the supplied blobs.
        let mut bi: usize = 0;
        while bi < blobs.len()
            invariant
                self.inv(),
                self.store.inner.saved == snap,
                bi <= blobs@.len(),
                self.model().files == m1.files,
                self.model().chunks == m1.chunks,
                forall|j: int|
                    0 <= j < bi ==> self.model().blobs.contains_key(
                        crate::blob_id::blob_id_of((#[trigger] blobs@[j])@),
                    ) && self.model().blobs[crate::blob_id::blob_id_of(blobs@[j]@)]
                        == crate::blob_id::trim_zeros(blobs@[j]@),
            decreases blobs@.len() - bi,
        {
            let added = self.store.add_blob(blobs[bi].as_slice());
            match added {
                Ok(_) => {},
                Err(_) => {
                    self.store.inner.transaction_rollback();
                    return Err(JournalApplyError::InvalidJournal);
                },
            }
            bi = bi + 1;
        }
        // Every blob the chunk lists reference must now be present.
        let ghost s_blobs = *self;
        let mut refs: Vec<String> = Vec::new();
        let mut ci: usize = 0;
        while ci < chunks.len()
            invariant
                *self == s_blobs,
                self.inv(),
                ci <= chunks@.len(),
                forall|p: int, q: int|
                    0 <= p < ci && 0 <= q < chunks@[p]@.len() ==> refs@.map_values(
                        |x: String| x@,
                    ).contains((#[trigger] chunks@[p]@[q])@),
            decreases chunks@.len() - ci,
        {
            let row = &chunks[ci];
            let mut cj: usize = 0;
            while cj < row.len()
                invariant
                    *self == s_blobs,
                    self.inv(),
                    cj <= row@.len(),
                    ci < chunks@.len(),
                    row == &chunks[ci as int],
                    forall|p: int, q: int|
                        0 <= p < ci && 0 <= q < chunks@[p]@.len() ==> refs@.map_values(
                            |x: String| x@,
                        ).contains((#[trigger] chunks@[p]@[q])@),
                    forall|q: int|
                        0 <= q < cj ==> refs@.map_values(|x: String| x@).contains(
                            (#[trigger] chunks@[ci as int]@[q])@,
                        ),
                decreases row@.len() - cj,
            {
                let ghost oldrefs = refs@.map_values(|x: String| x@);
                refs.push(crate::clone_string(&row[cj]));
                proof {
                    let newrefs = refs@.map_values(|x: String| x@);
                    assert(newrefs[newrefs.len() - 1] == chunks@[ci as int]@[cj as int]@);
                    assert forall|x: Seq<char>| oldrefs.contains(x) implies newrefs.contains(
                        x,
                    ) by {
                        let w = choose|w: int| 0 <= w < oldrefs.len() && oldrefs[w] == x;
                        assert(newrefs[w] == oldrefs[w]);
                    };
                }
                cj = cj + 1;
            }
            ci = ci + 1;
        }
        let missing = self.store.get_missing_blobs(&refs);
        if missing.len() > 0 {
            self.store.inner.transaction_rollback();
            return Err(JournalApplyError::MissingBlobs(missing));
        }
        proof {
            let m = self.model();
            let keys = refs@.map_values(|x: String| x@);
            assert forall|w: int| 0 <= w < keys.len() implies m.blobs.contains_key(
                #[trigger] keys[w],
            ) by {
                if !m.blobs.contains_key(keys[w]) {
                    assert(missing@.map_values(|x: String| x@).contains(keys[w]));
                }
            };
        }
        let ghost m_check = self.model();
        // Install the chunk lists of the created temporary files.
        let mut fi: usize = 0;
        while fi < assigned_ids.len() && fi < chunks.len()
            invariant
                self.inv(),
                self.store.inner.saved == snap,
                fi <= assigned_ids@.len(),
                fi <= chunks@.len(),
                aseq == assigned_ids@.map_values(|x: String| x@),
                forall|x: int, y: int| 0 <= x < y < assigned_ids@.len() ==> (
                #[trigger] assigned_ids@[x])@ != (#[trigger] assigned_ids@[y])@,
                self.model().blobs == m_check.blobs,
                self.model().files == m_check.files,
                forall|j: int|
                    0 <= j < blobs@.len() ==> m_check.blobs.contains_key(
                        crate::blob_id::blob_id_of((#[trigger] blobs@[j])@),
                    ) && m_check.blobs[crate::blob_id::blob_id_of(blobs@[j]@)]
                        == crate::blob_id::trim_zeros(blobs@[j]@),
                forall|p: int, q: int|
                    0 <= p < chunks@.len() && 0 <= q < chunks@[p]@.len()
                        ==> m_check.blobs.contains_key((#[trigger] chunks@[p]@[q])@),
                forall|i: int|
                    0 <= i < fi && i < chunks@.len() ==> ((chunks@[i]@.len() > 0
                        ==> self.model().chunks.contains_key((#[trigger] assigned_ids@[i])@))
                        && (self.model().chunks.contains_key(assigned_ids@[i]@)
                        ==> self.model().chunks[assigned_ids@[i]@] == crate::str_views(
                        chunks@[i]@,
                    ))),
            decreases assigned_ids@.len() - fi,
        {
            let row_len = chunks[fi].len();
            let mut j: usize = 0;
            while j < row_len
                invariant
                    self.inv(),
                    self.store.inner.saved == snap,
                    j <= row_len,
                    fi < assigned_ids@.len(),
                    fi < chunks@.len(),
                    row_len == chunks@[fi as int]@.len(),
                    aseq == assigned_ids@.map_values(|x: String| x@),
                    forall|x: int, y: int| 0 <= x < y < assigned_ids@.len() ==> (
                    #[trigger] assigned_ids@[x])@ != (#[trigger] assigned_ids@[y])@,
                    self.model().blobs == m_check.blobs,
                    self.model().files == m_check.files,
                    forall|i: int|
                        0 <= i < fi && i < chunks@.len() ==> ((chunks@[i]@.len() > 0
                            ==> self.model().chunks.contains_key(
                            (#[trigger] assigned_ids@[i])@,
                        )) && (self.model().chunks.contains_key(assigned_ids@[i]@)
                            ==> self.model().chunks[assigned_ids@[i]@] == crate::str_views(
                            chunks@[i]@,
                        ))),
                    crate::wrapper::chunk_count(self.model(), assigned_ids@[fi as int]@) >= j,
                    j > 0 ==> self.model().chunks.contains_key(assigned_ids@[fi as int]@),
                    forall|q: int|
                        0 <= q < j ==> self.model().chunks[assigned_ids@[fi as int]@][q] == (
                        #[trigger] chunks@[fi as int]@[q])@,
                decreases row_len - j,
            {
                let ghost mpre = self.model();
                let cur_count = chunk_count_of(&self.store, assigned_ids[fi].as_str());
                let at = if j <= cur_count {
                    j
                } else {
                    cur_count
                };
                self.store.inner.tables.replace_chunk(
                    assigned_ids[fi].as_str(),
                    at,
                    chunks[fi][j].as_str(),
                );
                proof {
                    let id = assigned_ids@[fi as int]@;
                    let lst = crate::store::chunk_list_after_replace(
                        mpre.chunks,
                        id,
                        j as int,
                        chunks@[fi as int]@[j as int]@,
                    );
                    assert(self.model().chunks == mpre.chunks.insert(id, lst));
                    assert(lst[j as int] == chunks@[fi as int]@[j as int]@);
                    assert forall|i: int|
                        0 <= i < fi && i < chunks@.len() implies ((chunks@[i]@.len() > 0
                            ==> self.model().chunks.contains_key(
                            (#[trigger] assigned_ids@[i])@,
                        )) && (self.model().chunks.contains_key(assigned_ids@[i]@)
                            ==> self.model().chunks[assigned_ids@[i]@] == crate::str_views(
                            chunks@[i]@,
                        ))) by {
                        assert(assigned_ids@[i]@ != id);
                    };
                }
                j = j + 1;
            }
            let ghost m_row = self.model();
            self.store.inner.tables.truncate_chunks(assigned_ids[fi].as_str(), row_len);
            proof {
                let id = assigned_ids@[fi as int]@;
                if m_row.chunks.contains_key(id) {
                    assert(self.model().chunks == m_row.chunks.insert(
                        id,
                        m_row.chunks[id].subrange(
                            0,
                            crate::store::truncated_len(
                                m_row.chunks[id].len() as int,
                                row_len as int,
                            ),
                        ),
                    ));
                    if row_len > 0 {
                        assert(self.model().chunks[id] =~= crate::str_views(
                            chunks@[fi as int]@,
                        ));
                    } else {
                        assert(self.model().chunks[id] =~= crate::str_views(
                            chunks@[fi as int]@,
                        ));
                    }
                }
                assert forall|i: int|
                    0 <= i < fi + 1 && i < chunks@.len() implies ((chunks@[i]@.len() > 0
                        ==> self.model().chunks.contains_key((#[trigger] assigned_ids@[i])@))
                        && (self.model().chunks.contains_key(assigned_ids@[i]@)
                        ==> self.model().chunks[assigned_ids@[i]@] == crate::str_views(
                        chunks@[i]@,
                    ))) by {
                    if i < fi {
                        assert(assigned_ids@[i]@ != id);
                    }
                };
            }
            fi = fi + 1;
        }
        let ghost m_inst = self.model();
        // Hand back the authoritative entity of every processed id.
        let ghost s_inst = *self;
        let mut dir_entities: Vec<DirEntity> = Vec::new();
        let mut pi: usize = 0;
        while pi < processed_ids.len()
            invariant
                *self == s_inst,
                self.inv(),
                pi <= processed_ids@.len(),
                pseq == processed_ids@.map_values(|x: String| x@),
                forall|j: int|
                    0 <= j < dir_entities@.len() ==> self.model().files.contains_key(
                        (#[trigger] dir_entities@[j])@.id,
                    ) && self.model().files[dir_entities@[j]@.id] == dir_entities@[j]@,
                forall|w: int|
                    0 <= w < pi && self.model().files.contains_key(#[trigger] pseq[w])
                        ==> exists|j: int|
                        0 <= j < dir_entities@.len() && (#[trigger] dir_entities@[j])@.id
                            == pseq[w],
            decreases processed_ids@.len() - pi,
        {
            let ghost old_ents = dir_entities@;
            match self.store.try_query_file(processed_ids[pi].as_str()) {
                Some(d) => {
                    proof {
                        assert(d@.id == pseq[pi as int]) by {
                            assert(pseq[pi as int] == processed_ids@[pi as int]@);
                            crate::store::StoreTables::lemma_ids_consistent(
                                self.store.inner.tables,
                            );
                        };
                    }
                    dir_entities.push(d);
                    proof {
                        assert forall|w: int|
                            0 <= w < pi + 1 && self.model().files.contains_key(
                                #[trigger] pseq[w],
                            ) implies exists|j: int|
                            0 <= j < dir_entities@.len() && (#[trigger] dir_entities@[j])@.id
                                == pseq[w] by {
                            if w < pi {
                                let j0 = choose|j0: int|
                                    0 <= j0 < old_ents.len() && (#[trigger] old_ents[j0])@.id
                                        == pseq[w];
                                assert(dir_entities@[j0]@.id == pseq[w]);
                            } else {
                                assert(dir_entities@[dir_entities@.len() - 1]@.id == pseq[w]);
                            }
                        };
                    }
                },
                None => {
                    proof {
                        assert forall|w: int|
                            0 <= w < pi + 1 && self.model().files.contains_key(
                                #[trigger] pseq[w],
                            ) implies exists|j: int|
                            0 <= j < dir_entities@.len() && (#[trigger] dir_entities@[j])@.id
                                == pseq[w] by {
                            if w < pi {
                            } else {
                                assert(pseq[w] == processed_ids@[pi as int]@);
                                assert(false);
                            }
                        };
                    }
                },
            }
            pi = pi + 1;
        }
        self.store.inner.transaction_commit();
        proof {
            assert(crate::str_views(assigned_ids@) =~= aseq);
            assert(self.model().files == m_check.files);
            assert(self.model().blobs == m_check.blobs);
            assert(replayed_with_entities(
                old(self).model(),
                self.model(),
                op_list@,
                assigned_ids@,
                dir_entities@,
            )) by {
                assert(replay_rel(
                    old(self).model(),
                    m1,
                    crate::modify_op::ops_views(op_list@),
                    crate::str_views(assigned_ids@),
                    pseq,
                    Seq::<Seq<char>>::empty(),
                ) && (forall|k: Seq<char>|
                    pseq.contains(k) && self.model().files.contains_key(k) ==> exists|j: int|
                        0 <= j < dir_entities@.len() && (#[trigger] dir_entities@[j])@.id == k));
            };
        }
        Ok(JournalApplyData { assigned_ids, dir_entities })
    }
}

/// Builds the `n`-th conflicted-copy candidate for a name.
fn build_candidate(
    stem: &str,
    ext: &str,
    date: &str,
    time: &str,
    n: u64,
    ghost_name: Ghost<Seq<char>>,
    ghost_ts: Ghost<Timespec>,
) -> (r: String)
    requires
        n >= 1,
        stem@ == stem_of(ghost_name@),
        ext@ == ext_of(ghost_name@),
        date@ == date_str_of(ghost_ts@.sec),
        time@ == time_str_of(ghost_ts@.sec),
    ensures
        r@ == conflict_candidate(ghost_name@, ghost_ts@, n as int),
{
    proof {
        reveal_strlit(" (Conflicted copy ");
        reveal_strlit(")");
        reveal_strlit(" ");
        reveal_strlit(") (");
        reveal_strlit(") ");
    }
    let mut r = String::from_str(stem);
    r.append(" (Conflicted copy ");
    r.append(date);
    if n == 1 {
        r.append(")");
        r.append(ext);
        proof {
            assert(r@ =~= conflict_candidate(ghost_name@, ghost_ts@, 1));
        }
        return r;
    }
    r.append(" ");
    r.append(time);
    if n == 2 {
        r.append(")");
        r.append(ext);
        proof {
            assert(r@ =~= conflict_candidate(ghost_name@, ghost_ts@, 2));
        }
        return r;
    }
    r.append(") (");
    let num = u64_to_dec_string(n - 1);
    r.append(num.as_str());
    r.append(") ");
    r.append(ext);
    proof {
        assert(r@ =~= conflict_candidate(ghost_name@, ghost_ts@, n as int));
    }
    r
}

} // verus!
