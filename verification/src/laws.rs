//! Invariants of the filesystem model, proved against the transition
//! predicates the operations ensure: the client's cache watermark never
//! passes the content version, the directory tree stays well-founded,
//! and chunk counts track file sizes.

use vstd::prelude::*;

use crate::server_fs::{bump_cv_files, server_create_post, server_remove_post};
use crate::store::{apply_attrs_view, new_entity_view, stored_dirent_view, StoreModel};
use crate::types::DirEntityView;
use crate::timespec::Timespec;
use crate::types::FileType;
use crate::wrapper::{
    after_update_time, chunk_count, max_int, spec_chunk_count_for,
};

verus! {

/// The client-side watermark invariant: no entity's retrieved version
/// passes its content version.
pub open spec fn retrieved_within(f: Map<Seq<char>, DirEntityView>) -> bool {
    forall|k: Seq<char>|
        #[trigger] f.contains_key(k) ==> f[k].retrieved_version <= f[k].content_version
}

/// Upserting an entity keeps the watermark invariant: the stored row
/// holds the watermark down to the new content version.
pub proof fn law_upsert_keeps_retrieved_within(f: Map<Seq<char>, DirEntityView>, d: DirEntityView)
    requires
        retrieved_within(f),
        d.content_version >= 0,
    ensures
        retrieved_within(f.insert(d.id, stored_dirent_view(f, d))),
{
    let f2 = f.insert(d.id, stored_dirent_view(f, d));
    assert forall|k: Seq<char>| #[trigger] f2.contains_key(k) implies f2[k].retrieved_version
        <= f2[k].content_version by {
        if k != d.id {
            assert(f2[k] == f[k]);
        }
    };
}

/// Advancing the watermark to the content version keeps the invariant.
pub proof fn law_refresh_keeps_retrieved_within(
    f: Map<Seq<char>, DirEntityView>,
    k: Seq<char>,
)
    requires
        retrieved_within(f),
        f.contains_key(k),
    ensures
        retrieved_within(
            f.insert(
                k,
                DirEntityView { retrieved_version: f[k].content_version, ..f[k] },
            ),
        ),
{
    let f2 = f.insert(k, DirEntityView { retrieved_version: f[k].content_version, ..f[k] });
    assert forall|q: Seq<char>| #[trigger] f2.contains_key(q) implies f2[q].retrieved_version
        <= f2[q].content_version by {
        if q != k {
            assert(f2[q] == f[q]);
        }
    };
}

/// A freshly created entity keeps the invariant: its watermark starts
/// at zero, below its first content version.
pub proof fn law_create_keeps_retrieved_within(
    f: Map<Seq<char>, DirEntityView>,
    id: Seq<char>,
    parent: Seq<char>,
    name: Seq<char>,
    file_type: FileType,
    mode: u16,
    dev: u32,
    t: Timespec,
)
    requires
        retrieved_within(f),
    ensures
        retrieved_within(f.insert(id, new_entity_view(id, parent, name, file_type, mode, dev, t))),
{
    let f2 = f.insert(id, new_entity_view(id, parent, name, file_type, mode, dev, t));
    assert forall|q: Seq<char>| #[trigger] f2.contains_key(q) implies f2[q].retrieved_version
        <= f2[q].content_version by {
        if q != id {
            assert(f2[q] == f[q]);
        }
    };
}

/// Version bumps, attribute changes, time updates and removals keep the
/// invariant: none of them moves the watermark up or the content
/// version down.
pub proof fn law_mutations_keep_retrieved_within(
    f: Map<Seq<char>, DirEntityView>,
    k: Seq<char>,
    mode: Option<u16>,
    size: Option<u64>,
    atim: Option<Timespec>,
    mtim: Option<Timespec>,
    ctim: Option<Timespec>,
    t: Timespec,
)
    requires
        retrieved_within(f),
    ensures
        retrieved_within(bump_cv_files(f, k)),
        retrieved_within(f.remove(k)),
        retrieved_within(after_update_time(f, k, t, false, true, true)),
        f.contains_key(k) ==> retrieved_within(
            f.insert(k, apply_attrs_view(f[k], mode, size, atim, mtim, ctim)),
        ),
{
    let f2 = bump_cv_files(f, k);
    assert forall|q: Seq<char>| #[trigger] f2.contains_key(q) implies f2[q].retrieved_version
        <= f2[q].content_version by {
        if !(f.contains_key(k) && q == k) {
            assert(f2[q] == f[q]);
        } else {
            assert(crate::store::bump(f[k].content_version) >= f[k].content_version);
        }
    };
    let f3 = after_update_time(f, k, t, false, true, true);
    assert forall|q: Seq<char>| #[trigger] f3.contains_key(q) implies f3[q].retrieved_version
        <= f3[q].content_version by {
        if !(f.contains_key(k) && q == k) {
            assert(f3[q] == f[q]);
        }
    };
    if f.contains_key(k) {
        let f4 = f.insert(k, apply_attrs_view(f[k], mode, size, atim, mtim, ctim));
        assert forall|q: Seq<char>| #[trigger] f4.contains_key(q) implies f4[q].retrieved_version
            <= f4[q].content_version by {
            if q != k {
                assert(f4[q] == f[q]);
            }
        };
    }
}

/// The directory tree invariant: the root is a directory that stands
/// alone, and every other entity's parent is a present directory.
pub open spec fn tree_wf(f: Map<Seq<char>, DirEntityView>) -> bool {
    &&& f.contains_key("root"@)
    &&& f["root"@].stat.file_type == FileType::Directory
    &&& f["root"@].parent == Seq::<char>::empty()
    &&& forall|k: Seq<char>|
        #[trigger] f.contains_key(k) && k != "root"@ ==> f.contains_key(f[k].parent) && f[
        f[k].parent].stat.file_type == FileType::Directory
}

/// An authoritative create keeps the tree well-founded: the operation
/// only succeeds under a present directory, and the newcomer changes no
/// other entity's parent.
pub proof fn law_create_keeps_tree(
    pre: StoreModel,
    post: StoreModel,
    parent: Seq<char>,
    t: Timespec,
    name: Seq<char>,
    file_type: FileType,
    mode: u16,
    dev: u32,
    rid: Seq<char>,
)
    requires
        tree_wf(pre.files),
        server_create_post(pre, post, parent, t, name, file_type, mode, dev, Ok(rid)),
        rid != "root"@,
    ensures
        tree_wf(post.files),
{
    reveal_strlit("root");
    let f = post.files;
    assert(f == after_update_time(
        bump_cv_files(pre.files, parent).insert(
            rid,
            new_entity_view(
                rid,
                crate::store::spec_create_parent(rid, parent),
                name,
                file_type,
                mode,
                dev,
                t,
            ),
        ),
        parent,
        t,
        false,
        true,
        true,
    ));
    assert forall|k: Seq<char>| #[trigger] f.contains_key(k) && k != "root"@ implies
        f.contains_key(f[k].parent) && f[f[k].parent].stat.file_type == FileType::Directory by {
        if k == rid {
            assert(f[k].parent == parent);
        } else {
            assert(f[k].parent == pre.files[k].parent);
            assert(pre.files.contains_key(pre.files[k].parent));
        }
    };
}

/// An authoritative removal keeps the tree well-founded, provided
/// nothing lists the removed entity as its parent.
pub proof fn law_remove_keeps_tree(
    pre: StoreModel,
    post: StoreModel,
    id: Seq<char>,
    t: Timespec,
    directory: bool,
)
    requires
        tree_wf(pre.files),
        server_remove_post(pre, post, id, t, directory, Ok(id)),
        id != "root"@,
        forall|k: Seq<char>|
            #[trigger] pre.files.contains_key(k) ==> pre.files[k].parent != id,
    ensures
        tree_wf(post.files),
{
    reveal_strlit("root");
    let f = post.files;
    assert forall|k: Seq<char>| #[trigger] f.contains_key(k) && k != "root"@ implies
        f.contains_key(f[k].parent) && f[f[k].parent].stat.file_type == FileType::Directory by {
        assert(pre.files.contains_key(k));
        assert(f[k].parent == pre.files[k].parent);
        assert(pre.files[k].parent != id);
    };
}

/// A write keeps the chunk count in step with the recorded size: one
/// chunk per started chunk width.
pub proof fn law_write_keeps_chunk_fit(
    old_size: int,
    old_count: int,
    offset: int,
    len: int,
)
    requires
        old_size >= 0,
        offset >= 0,
        len > 0,
        old_count == spec_chunk_count_for(old_size),
        offset <= old_size,
    ensures
        max_int(old_count, (offset + len - 1) / (crate::BLOB_SIZE as int) + 1)
            == spec_chunk_count_for(max_int(old_size, offset + len)),
{
    let b = crate::BLOB_SIZE as int;
    let last = (offset + len - 1) / b;
    crate::wrapper::lemma_ceil_chunks(old_size);
    crate::wrapper::lemma_ceil_chunks(offset + len);
    vstd::arithmetic::div_mod::lemma_fundamental_div_mod(offset + len - 1, b);
    vstd::arithmetic::div_mod::lemma_mod_bound(offset + len - 1, b);
    vstd::arithmetic::div_mod::lemma_fundamental_div_mod(offset + len, b);
    vstd::arithmetic::div_mod::lemma_mod_bound(offset + len, b);
    if (offset + len) % b == 0 {
        vstd::arithmetic::div_mod::lemma_fundamental_div_mod_converse(
            offset + len - 1,
            b,
            (offset + len) / b - 1,
            b - 1,
        );
        assert(last + 1 == spec_chunk_count_for(offset + len));
    } else {
        vstd::arithmetic::div_mod::lemma_fundamental_div_mod_converse(
            offset + len - 1,
            b,
            (offset + len) / b,
            (offset + len) % b - 1,
        );
        assert(last + 1 == spec_chunk_count_for(offset + len));
    }
    if old_size >= offset + len {
        assert(spec_chunk_count_for(old_size) >= last + 1) by {
            vstd::arithmetic::div_mod::lemma_div_is_ordered(offset + len, old_size, b);
            assert(spec_chunk_count_for(offset + len) >= last + 1);
        };
    } else {
        assert(spec_chunk_count_for(old_size) <= last + 1) by {
            vstd::arithmetic::div_mod::lemma_div_is_ordered(old_size + b - 1, offset + len + b - 1, b);
        };
    }
}

/// Creating a file and then removing it leaves the file table as if
/// neither had happened, except that the parent's version counters have
/// advanced by two steps and its modification and change times moved to
/// the removal time.
pub proof fn law_create_then_remove(
    pre: StoreModel,
    mid: StoreModel,
    post: StoreModel,
    parent: Seq<char>,
    t1: Timespec,
    t2: Timespec,
    name: Seq<char>,
    file_type: FileType,
    mode: u16,
    dev: u32,
    rid: Seq<char>,
)
    requires
        server_create_post(pre, mid, parent, t1, name, file_type, mode, dev, Ok(rid)),
        server_remove_post(mid, post, rid, t2, false, Ok(rid)),
        rid != parent,
        rid != "root"@,
    ensures
        !post.files.contains_key(rid),
        forall|k: Seq<char>|
            k != parent && k != rid ==> ((#[trigger] post.files.contains_key(k)
                <==> pre.files.contains_key(k)) && (pre.files.contains_key(k) ==> post.files[k]
                == pre.files[k])),
        post.files.contains_key(parent),
        post.files[parent].content_version == crate::store::bump(
            crate::store::bump(pre.files[parent].content_version),
        ),
        post.files[parent].dirent_version == crate::store::bump(
            crate::store::bump(pre.files[parent].dirent_version),
        ),
        post.files[parent].stat.mtim == t2,
        post.files[parent].stat.ctim == t2,
        post.files[parent].parent == pre.files[parent].parent,
        post.files[parent].name == pre.files[parent].name,
{
    reveal_strlit("root");
    assert(crate::store::spec_create_parent(rid, parent) == parent);
    let created = new_entity_view(rid, parent, name, file_type, mode, dev, t1);
    let f1 = bump_cv_files(pre.files, parent).insert(rid, created);
    let f_mid = after_update_time(f1, parent, t1, false, true, true);
    assert(mid.files == f_mid);
    assert(mid.files[rid].parent == parent);
    let f2 = bump_cv_files(mid.files, parent).remove(rid);
    let f_post = after_update_time(f2, parent, t2, false, true, true);
    assert(post.files == f_post);
    assert(f1.contains_key(parent));
}

/// A chunk-aligned write reads back exactly: writing `data` at a chunk
/// boundary and then reading the same range returns `data`.
pub proof fn law_aligned_write_read(
    pre: StoreModel,
    post: StoreModel,
    id: Seq<char>,
    k: int,
    data: Seq<u8>,
)
    requires
        k >= 0,
        data.len() > 0,
        k * (crate::BLOB_SIZE as int) + data.len() <= usize::MAX,
        chunk_count(post, id) == max_int(
            chunk_count(pre, id),
            (k * (crate::BLOB_SIZE as int) + data.len() - 1) / (crate::BLOB_SIZE as int) + 1,
        ),
        forall|c: int|
            k <= c <= (k * (crate::BLOB_SIZE as int) + data.len() - 1) / (crate::BLOB_SIZE as int)
                ==> #[trigger] crate::wrapper::padded_chunk(post, id, c)
                == crate::wrapper::overlay(
                crate::wrapper::write_base(pre, id, c),
                k * (crate::BLOB_SIZE as int) - c * (crate::BLOB_SIZE as int),
                data,
            ),
    ensures
        crate::wrapper::read_result(post, id, k * (crate::BLOB_SIZE as int), data.len() as int)
            == data,
{
    let b = crate::BLOB_SIZE as int;
    let offset = k * b;
    let len = data.len() as int;
    let last = (offset + len - 1) / b;
    let n = chunk_count(post, id);
    vstd::arithmetic::div_mod::lemma_fundamental_div_mod_converse(offset, b, k, 0);
    assert(offset / b == k && offset % b == 0);
    vstd::arithmetic::div_mod::lemma_div_is_ordered(offset, offset + len - 1, b);
    assert(last >= k);
    vstd::arithmetic::div_mod::lemma_div_is_ordered(offset + len - 1, offset + len, b);
    let end = crate::wrapper::min_int(n, (offset + len) / b + 1);
    assert(n >= last + 1);
    assert(end >= last + 1);
    assert(k < n);
    crate::wrapper::lemma_span_len(post, id, k, end);
    let sp = crate::wrapper::span(post, id, k, end);
    assert(sp.len() == (end - k) * b);
    assert((end - k) * b >= (last + 1 - k) * b) by (nonlinear_arith)
        requires
            end >= last + 1,
            b > 0,
    ;
    assert((last + 1 - k) * b >= len) by {
        vstd::arithmetic::div_mod::lemma_fundamental_div_mod(offset + len - 1, b);
        vstd::arithmetic::div_mod::lemma_mod_bound(offset + len - 1, b);
        assert((last + 1 - k) * b == last * b + b - k * b) by (nonlinear_arith);
        assert(last * b <= offset + len - 1 && offset + len - 1 < last * b + b) by (
        nonlinear_arith)
            requires
                offset + len - 1 == b * last + (offset + len - 1) % b,
                0 <= (offset + len - 1) % b < b,
        ;
    };
    let local = offset - k * b;
    assert(local == 0);
    let result = crate::wrapper::read_result(post, id, offset, len);
    assert(result == sp.subrange(0, crate::wrapper::min_int(len, sp.len() - 0)));
    assert(crate::wrapper::min_int(len, sp.len() as int) == len);
    assert forall|p: int| 0 <= p < len implies sp[p] == data[p] by {
        crate::wrapper::lemma_span_index(post, id, k, end, p);
        let c = k + p / b;
        vstd::arithmetic::div_mod::lemma_fundamental_div_mod(p, b);
        vstd::arithmetic::div_mod::lemma_mod_bound(p, b);
        vstd::arithmetic::div_mod::lemma_div_is_ordered(p, len - 1, b);
        assert((len - 1) / b <= last - k) by {
            vstd::arithmetic::div_mod::lemma_hoist_over_denominator(len - 1, k, b as nat);
            assert((len - 1) / b + k == (len - 1 + k * b) / b);
        };
        assert(k <= c <= last);
        assert(crate::wrapper::padded_chunk(post, id, c) == crate::wrapper::overlay(
            crate::wrapper::write_base(pre, id, c),
            offset - c * b,
            data,
        ));
        let at = offset - c * b;
        assert(at == -(p / b) * b) by (nonlinear_arith)
            requires
                c == k + p / b,
                at == k * b - c * b,
        ;
        let q = p % b;
        assert(q - at == p) by (nonlinear_arith)
            requires
                p == b * (p / b) + q,
                at == -(p / b) * b,
        ;
        assert(at <= q < at + data.len());
        assert(crate::wrapper::overlay(
            crate::wrapper::write_base(pre, id, c),
            at,
            data,
        )[q] == data[p]) by {
            assert(crate::wrapper::write_base(pre, id, c).len() == b);
        };
        assert(sp[p] == crate::wrapper::padded_chunk(post, id, c)[q]);
    };
    assert(result =~= data);
}

/// A size change brings the chunk count to exactly what the new size
/// needs; a chunk-aligned file needs exactly its quotient of chunks.
pub proof fn law_resize_restores_chunk_fit(m: StoreModel, id: Seq<char>, new_size: int)
    requires
        new_size >= 0,
        chunk_count(m, id) == spec_chunk_count_for(new_size),
    ensures
        chunk_count(m, id) * crate::BLOB_SIZE >= new_size,
        chunk_count(m, id) * crate::BLOB_SIZE < new_size + crate::BLOB_SIZE,
{
    crate::wrapper::lemma_ceil_chunks(new_size);
}

} // verus!
