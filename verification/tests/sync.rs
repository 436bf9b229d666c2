//! End-to-end synchronization scenarios between a client cache and the
//! authoritative server filesystem.

use offs::client_fs::OffsFilesystem;
use offs::errors::{JournalApplyError, OperationErrorType, RemoteFsError, RemoteFsErrorKind};
use offs::errors::OperationError;
use offs::client_fs::{flush_decision, FlushStep};
use offs::id_generator::{LocalTempIdGenerator, RandomHexIdGenerator};
use offs::modify_op::ModifyOperation;
use offs::modify_op_builder::ModifyOpBuilder;
use offs::modify_op_handler::OperationApplier;
use offs::server_fs::RemoteFs;
use offs::store::Store;
use offs::timespec::Timespec;
use offs::types::{DirEntity, FileType};
use offs::write_buffer::WriteOperation;

fn t(sec: i64) -> Timespec {
    Timespec { sec, nsec: 0 }
}

fn new_client(offline: bool) -> OffsFilesystem {
    OffsFilesystem::new(Store::new(LocalTempIdGenerator::new()), offline).unwrap()
}

fn new_server() -> RemoteFs {
    RemoteFs::new(Store::new(RandomHexIdGenerator::new())).unwrap()
}

/// Runs one client operation through the offline pipeline.
fn run_offline(client: &mut OffsFilesystem, op: &ModifyOperation) -> DirEntity {
    let (new_id, _seq) = client.perform_operation_local(op).unwrap();
    client.finish_operation_offline(&new_id).unwrap()
}

/// Flushes the client journal against the server, as the transport loop
/// would, with bounded retries.
fn flush_journal(client: &mut OffsFilesystem, server: &mut RemoteFs) {
    for _attempt in 0..10 {
        let ops = client.prepare_ops_to_send().unwrap();
        if ops.is_empty() {
            return;
        }
        let chunks = client.prepare_chunks_to_send();
        let temp_blobs = client.temp_blob_ids();
        let server_missing = server.store.get_missing_blobs(&temp_blobs);
        let blobs = client.blobs_to_send(&server_missing);
        match server.apply_full_journal(&ops, &chunks, &blobs) {
            Ok(data) => {
                client
                    .apply_journal_reconcile(&data.assigned_ids, &data.dir_entities)
                    .unwrap();
                return;
            }
            Err(JournalApplyError::ConflictingFiles(ids)) => {
                client.recreate_conflicting_files(&ids, t(0)).unwrap();
            }
            Err(JournalApplyError::MissingBlobs(_)) => {}
            Err(JournalApplyError::InvalidJournal) => panic!("journal rejected"),
        }
    }
    panic!("journal did not flush");
}

#[test]
fn offline_create_and_write_reach_the_server_after_flush() {
    let mut client = new_client(true);
    let mut server = new_server();

    let root = client.query_file("root").unwrap();
    let create = ModifyOpBuilder::make_create_file_op(
        &root,
        t(100),
        "a.txt",
        FileType::RegularFile,
        0o644,
        0,
    );
    let created = run_offline(&mut client, &create);
    assert!(LocalTempIdGenerator::is_local_id(&created.id));

    let fh = client.open_file(created.id.clone());
    let _ = client.write_buffered(fh, WriteOperation::new(0, b"hello".to_vec()));
    let (id, ops) = client.flush_buffer(fh);
    assert_eq!(ops.len(), 1);
    let dirent = client.query_file(&id).unwrap();
    let write_op = ModifyOpBuilder::make_write_op(&dirent, t(101), 0, ops[0].data.clone());
    let _ = run_offline(&mut client, &write_op);

    // Two journal rows: the create and the write.
    assert_eq!(client.prepare_ops_to_send().unwrap().len(), 2);

    client.set_offline(false);
    flush_journal(&mut client, &mut server);

    let on_server = server.store.query_file_by_name("root", "a.txt").unwrap();
    assert_eq!(on_server.stat.size, 5);
    assert_eq!(
        server.store.read(&on_server.id, 0, 5).unwrap(),
        b"hello".to_vec()
    );
    // The client cache now holds the authoritative id, not the temp id.
    let cached = client.query_file_by_name("root", "a.txt").unwrap();
    assert_eq!(cached.id, on_server.id);
    assert_eq!(cached.id.len(), 32);
    assert!(!LocalTempIdGenerator::is_local_id(&cached.id));
    // The journal is empty again.
    assert_eq!(client.prepare_ops_to_send().unwrap().len(), 0);
}

#[test]
fn conflicting_offline_create_gets_a_conflicted_copy_name() {
    let mut server = new_server();
    // Another client already created /x on the server.
    let root_srv = server.store.query_file("root").unwrap();
    let create_first =
        ModifyOpBuilder::make_create_file_op(&root_srv, t(0), "x", FileType::RegularFile, 0o644, 0);
    OperationApplier::apply_operation(&mut server, &create_first).unwrap();

    // This client, offline with a stale cache, creates /x too.
    let mut client = new_client(true);
    let root = client.query_file("root").unwrap();
    let create =
        ModifyOpBuilder::make_create_file_op(&root, t(0), "x", FileType::RegularFile, 0o644, 0);
    let created = run_offline(&mut client, &create);
    let dirent = client.query_file(&created.id).unwrap();
    let write_op = ModifyOpBuilder::make_write_op(&dirent, t(0), 0, vec![7u8; 10]);
    let _ = run_offline(&mut client, &write_op);

    client.set_offline(false);
    flush_journal(&mut client, &mut server);

    // The server holds both entries; the newcomer was renamed.
    assert!(server.store.query_file_by_name("root", "x").is_ok());
    let renamed = server
        .store
        .query_file_by_name("root", "x (Conflicted copy 1970-01-01)")
        .unwrap();
    assert_eq!(renamed.stat.size, 10);
    // The client journal is empty after the recovery.
    assert_eq!(client.prepare_ops_to_send().unwrap().len(), 0);
}

#[test]
fn stale_write_conflicts_then_recreates_and_converges() {
    let mut server = new_server();
    let root_srv = server.store.query_file("root").unwrap();
    let mk = ModifyOpBuilder::make_create_file_op(
        &root_srv,
        t(0),
        "doc",
        FileType::RegularFile,
        0o644,
        0,
    );
    let f_id = OperationApplier::apply_operation(&mut server, &mk).unwrap();

    // The client caches the file at its current content version.
    let mut client = new_client(false);
    let listing = server.store.list_files("root");
    client.reconcile_listing("root", &listing).unwrap();
    let cached = client.query_file_by_name("root", "doc").unwrap();

    // The server's copy moves on: another writer bumps its version.
    let f_srv = server.store.query_file(&f_id).unwrap();
    let advance = ModifyOpBuilder::make_write_op(&f_srv, t(1), 0, b"server".to_vec());
    OperationApplier::apply_operation(&mut server, &advance).unwrap();

    // The client, now offline, writes against its stale version.
    client.set_offline(true);
    let stale_write = ModifyOpBuilder::make_write_op(&cached, t(2), 0, vec![7u8; 10]);
    let _ = run_offline(&mut client, &stale_write);

    // The first submission loses the content conflict.
    let ops = client.prepare_ops_to_send().unwrap();
    let chunks = client.prepare_chunks_to_send();
    let no_blobs: Vec<Vec<u8>> = Vec::new();
    let conflicted = match server.apply_full_journal(&ops, &chunks, &no_blobs) {
        Err(JournalApplyError::ConflictingFiles(ids)) => ids,
        _ => panic!("expected a content conflict"),
    };
    assert_eq!(conflicted, vec![f_id.clone()]);
    client.recreate_conflicting_files(&conflicted, t(3)).unwrap();

    // The rebuilt journal re-creates the file, but its content blob has
    // not been sent yet.
    let ops2 = client.prepare_ops_to_send().unwrap();
    assert_eq!(ops2.len(), 2);
    let chunks2 = client.prepare_chunks_to_send();
    let missing = match server.apply_full_journal(&ops2, &chunks2, &no_blobs) {
        Err(JournalApplyError::MissingBlobs(ids)) => ids,
        _ => panic!("expected missing blobs"),
    };
    assert_eq!(missing.len(), 1);

    // Shipping the blob converges.
    let blobs = client.blobs_to_send(&missing);
    let done = server.apply_full_journal(&ops2, &chunks2, &blobs).unwrap();
    client
        .apply_journal_reconcile(&done.assigned_ids, &done.dir_entities)
        .unwrap();

    // Both copies live on the server: the advanced original and the
    // conflicted copy holding the stale write.
    let original = server.store.query_file_by_name("root", "doc").unwrap();
    assert_eq!(server.store.read(&original.id, 0, 6).unwrap(), b"server");
    let copy = server
        .store
        .query_file_by_name("root", "doc (Conflicted copy 1970-01-01)")
        .unwrap();
    assert_eq!(copy.stat.size, 10);
    assert_eq!(server.store.read(&copy.id, 0, 10).unwrap(), vec![7u8; 10]);
    assert_eq!(client.prepare_ops_to_send().unwrap().len(), 0);
}

#[test]
fn journal_flush_is_idempotent_when_nothing_is_pending() {
    let mut client = new_client(false);
    let mut server = new_server();
    flush_journal(&mut client, &mut server);
    // A second flush of the already-empty journal changes nothing.
    let before = server.store.list_files("root").len();
    flush_journal(&mut client, &mut server);
    assert_eq!(server.store.list_files("root").len(), before);
    let empty_ops: Vec<ModifyOperation> = Vec::new();
    let empty_chunks: Vec<Vec<String>> = Vec::new();
    let empty_blobs: Vec<Vec<u8>> = Vec::new();
    let replay = server
        .apply_full_journal(&empty_ops, &empty_chunks, &empty_blobs)
        .unwrap();
    assert_eq!(replay.assigned_ids.len(), 0);
    assert_eq!(server.store.list_files("root").len(), before);
}

#[test]
fn sparse_write_stores_canonical_empty_chunks() {
    let mut client = new_client(true);
    let root = client.query_file("root").unwrap();
    let create = ModifyOpBuilder::make_create_file_op(
        &root,
        t(1),
        "sparse",
        FileType::RegularFile,
        0o644,
        0,
    );
    let created = run_offline(&mut client, &create);
    let dirent = client.query_file(&created.id).unwrap();
    let grow = ModifyOpBuilder::make_set_attributes_op(
        &dirent,
        t(2),
        None,
        None,
        None,
        Some(200000),
        None,
        None,
    );
    let _ = run_offline(&mut client, &grow);
    let dirent = client.query_file(&created.id).unwrap();
    let poke = ModifyOpBuilder::make_write_op(&dirent, t(3), 150000, vec![7u8]);
    let _ = run_offline(&mut client, &poke);

    let data = client.read(&created.id, 0, 200000).unwrap();
    assert_eq!(data.len(), 200000);
    assert_eq!(data[150000], 7);
    assert!(data[..150000].iter().all(|&b| b == 0));
    assert!(data[150001..].iter().all(|&b| b == 0));

    // 200 000 bytes span four chunks; the untouched ones hold the
    // canonical empty blob.
    let chunks = client.store.get_chunks(&created.id);
    assert_eq!(chunks.len(), 4);
    let mut probe = offs::store::StoreTables::new();
    let empty_id = probe.add_blob(&[]).unwrap();
    assert_eq!(chunks[0], empty_id);
    assert_eq!(chunks[1], empty_id);
    assert_ne!(chunks[2], empty_id);
    assert_eq!(chunks[3], empty_id);
}

#[test]
fn read_past_end_returns_fewer_bytes_not_an_error() {
    let mut client = new_client(true);
    let root = client.query_file("root").unwrap();
    let create =
        ModifyOpBuilder::make_create_file_op(&root, t(1), "short", FileType::RegularFile, 0o644, 0);
    let created = run_offline(&mut client, &create);
    let dirent = client.query_file(&created.id).unwrap();
    let write = ModifyOpBuilder::make_write_op(&dirent, t(2), 0, b"abc".to_vec());
    let _ = run_offline(&mut client, &write);

    let data = client.read(&created.id, 0, 1000000).unwrap();
    assert!(data.len() < 1000000);
    assert_eq!(&data[..3], b"abc");
    let beyond = client.read(&created.id, 5000000, 10).unwrap();
    assert_eq!(beyond.len(), 0);
}

#[test]
fn aligned_write_reads_back_exactly() {
    let mut client = new_client(true);
    let root = client.query_file("root").unwrap();
    let create =
        ModifyOpBuilder::make_create_file_op(&root, t(1), "big", FileType::RegularFile, 0o644, 0);
    let created = run_offline(&mut client, &create);
    let dirent = client.query_file(&created.id).unwrap();
    let payload: Vec<u8> = (0..100000u32).map(|i| (i % 251) as u8).collect();
    let write = ModifyOpBuilder::make_write_op(&dirent, t(2), 65536, payload.clone());
    let _ = run_offline(&mut client, &write);

    let data = client.read(&created.id, 65536, 100000).unwrap();
    assert_eq!(data, payload);
}

#[test]
fn rmdir_on_a_non_empty_directory_is_refused() {
    let mut server = new_server();
    let root = server.store.query_file("root").unwrap();
    let mkdir = ModifyOpBuilder::make_create_directory_op(&root, t(1), "d", 0o755);
    let dir_id = OperationApplier::apply_operation(&mut server, &mkdir).unwrap();
    let dir = server.store.query_file(&dir_id).unwrap();
    let mkfile =
        ModifyOpBuilder::make_create_file_op(&dir, t(2), "f", FileType::RegularFile, 0o644, 0);
    OperationApplier::apply_operation(&mut server, &mkfile).unwrap();

    let dir = server.store.query_file(&dir_id).unwrap();
    let rmdir = ModifyOpBuilder::make_remove_directory_op(&dir, t(3));
    let err = OperationApplier::apply_operation(&mut server, &rmdir).unwrap_err();
    assert_eq!(err.error_type, OperationErrorType::DirectoryNotEmpty);
    assert_eq!(offs::errors::to_os_error(&err), 39);
    assert!(server.store.query_file(&dir_id).is_ok());
}

#[test]
fn rename_across_parents_bumps_the_right_versions() {
    let mut server = new_server();
    let root = server.store.query_file("root").unwrap();
    let mk_a = ModifyOpBuilder::make_create_directory_op(&root, t(1), "a", 0o755);
    let a_id = OperationApplier::apply_operation(&mut server, &mk_a).unwrap();
    let root = server.store.query_file("root").unwrap();
    let mk_b = ModifyOpBuilder::make_create_directory_op(&root, t(1), "b", 0o755);
    let b_id = OperationApplier::apply_operation(&mut server, &mk_b).unwrap();
    let a = server.store.query_file(&a_id).unwrap();
    let mk_f = ModifyOpBuilder::make_create_file_op(&a, t(2), "f", FileType::RegularFile, 0o644, 0);
    let f_id = OperationApplier::apply_operation(&mut server, &mk_f).unwrap();

    let a_before = server.store.query_file(&a_id).unwrap();
    let b_before = server.store.query_file(&b_id).unwrap();
    let f_before = server.store.query_file(&f_id).unwrap();

    let f = server.store.query_file(&f_id).unwrap();
    let mv = ModifyOpBuilder::make_rename_op(&f, t(3), &b_id, "f");
    OperationApplier::apply_operation(&mut server, &mv).unwrap();

    let a_after = server.store.query_file(&a_id).unwrap();
    let b_after = server.store.query_file(&b_id).unwrap();
    let f_after = server.store.query_file(&f_id).unwrap();
    assert_eq!(a_after.content_version, a_before.content_version + 1);
    assert_eq!(b_after.content_version, b_before.content_version + 1);
    assert_eq!(f_after.dirent_version, f_before.dirent_version + 1);
    assert_eq!(f_after.parent, b_id);
    assert_eq!(server.store.list_files(&a_id).len(), 0);
    assert_eq!(server.store.list_files(&b_id).len(), 1);
}

#[test]
fn listing_reconciliation_prunes_stale_children() {
    let mut client = new_client(false);
    let mut server = new_server();
    // The server has one child; the client cache has a stale extra one.
    let root_srv = server.store.query_file("root").unwrap();
    let mk = ModifyOpBuilder::make_create_file_op(
        &root_srv,
        t(1),
        "kept",
        FileType::RegularFile,
        0o644,
        0,
    );
    OperationApplier::apply_operation(&mut server, &mk).unwrap();

    let root = client.query_file("root").unwrap();
    let stale =
        ModifyOpBuilder::make_create_file_op(&root, t(1), "stale", FileType::RegularFile, 0o644, 0);
    let _ = run_offline(&mut client, &stale);
    assert!(client.query_file_by_name("root", "stale").is_ok());

    let listing = server.store.list_files("root");
    client.reconcile_listing("root", &listing).unwrap();
    assert!(client.query_file_by_name("root", "kept").is_ok());
    assert!(client.query_file_by_name("root", "stale").is_err());
    // An empty directory lists as the empty set, not an error.
    let root_now = client.query_file("root").unwrap();
    assert!(root_now.retrieved_version != 0);
}

#[test]
fn create_then_remove_advances_the_parent_by_two() {
    let mut server = new_server();
    let root_before = server.store.query_file("root").unwrap();
    let mk = ModifyOpBuilder::make_create_file_op(
        &root_before,
        t(1),
        "gone",
        FileType::RegularFile,
        0o644,
        0,
    );
    let id = OperationApplier::apply_operation(&mut server, &mk).unwrap();
    let f = server.store.query_file(&id).unwrap();
    let rm = ModifyOpBuilder::make_remove_file_op(&f, t(2));
    OperationApplier::apply_operation(&mut server, &rm).unwrap();

    let root_after = server.store.query_file("root").unwrap();
    assert_eq!(
        root_after.content_version,
        root_before.content_version + 2
    );
    assert!(server.store.query_file(&id).is_err());
    assert_eq!(server.store.list_files("root").len(), 0);
}

#[test]
fn offline_listing_needs_a_fetched_directory() {
    let mut client = new_client(true);
    // The root was never listed against a server: offline listing fails.
    let err = client.list_files_offline("root").unwrap_err();
    assert_eq!(err.error_type, OperationErrorType::Offline);
}

#[test]
fn conflicted_copy_ladder_advances_to_the_timed_rung() {
    let mut server = new_server();
    let root = server.store.query_file("root").unwrap();
    let mk = ModifyOpBuilder::make_create_file_op(&root, t(0), "x", FileType::RegularFile, 0o644, 0);
    OperationApplier::apply_operation(&mut server, &mk).unwrap();
    // The dated rung goes to the first deferred newcomer...
    let root = server.store.query_file("root").unwrap();
    let again =
        ModifyOpBuilder::make_create_file_op(&root, t(0), "x", FileType::RegularFile, 0o644, 0);
    OperationApplier::apply_operation_deferred(&mut server, &again).unwrap();
    assert!(server
        .store
        .query_file_by_name("root", "x (Conflicted copy 1970-01-01)")
        .is_ok());
    // ... and the next one moves on to the dated-and-timed rung.
    let root = server.store.query_file("root").unwrap();
    let third =
        ModifyOpBuilder::make_create_file_op(&root, t(0), "x", FileType::RegularFile, 0o644, 0);
    OperationApplier::apply_operation_deferred(&mut server, &third).unwrap();
    assert!(server
        .store
        .query_file_by_name("root", "x (Conflicted copy 1970-01-01 00-00-00)")
        .is_ok());
    // Extensions split off before the marker.
    let root = server.store.query_file("root").unwrap();
    let with_ext =
        ModifyOpBuilder::make_create_file_op(&root, t(0), "a.txt", FileType::RegularFile, 0o644, 0);
    OperationApplier::apply_operation(&mut server, &with_ext).unwrap();
    let root = server.store.query_file("root").unwrap();
    let with_ext2 =
        ModifyOpBuilder::make_create_file_op(&root, t(0), "a.txt", FileType::RegularFile, 0o644, 0);
    OperationApplier::apply_operation_deferred(&mut server, &with_ext2).unwrap();
    assert!(server
        .store
        .query_file_by_name("root", "a (Conflicted copy 1970-01-01).txt")
        .is_ok());
}

#[test]
fn shim_error_surface_coarsens_and_maps() {
    let base = offs::errors::OperationError::new(OperationErrorType::Offline, String::from("x"));
    let coarse = RemoteFsError::from_operation_error(&base);
    assert_eq!(coarse.kind, RemoteFsErrorKind::Offline);
    assert_eq!(coarse.to_os_error(), 61);
    assert_eq!(RemoteFsError::new(RemoteFsErrorKind::NoEntry).to_os_error(), 2);
    assert_eq!(
        RemoteFsError::new(RemoteFsErrorKind::DirectoryNotEmpty).to_os_error(),
        39
    );
}

#[test]
fn inode_map_is_a_stable_bijection() {
    let mut helper = offs::inode_map::FuseHelper::new();
    assert_eq!(helper.get_id_by_inode(1).unwrap(), "root");
    let a = helper.get_inode_for_id("id-a");
    let b = helper.get_inode_for_id("id-b");
    assert_eq!(a, 2);
    assert_eq!(b, 3);
    assert_eq!(helper.get_inode_for_id("id-a"), 2);
    assert_eq!(helper.get_id_by_inode(3).unwrap(), "id-b");
    assert!(helper.get_id_by_inode(99).is_err());
}

#[test]
fn missing_blob_report_deduplicates() {
    let mut tables = offs::store::StoreTables::new();
    let present = tables.add_blob(&[5, 6, 7]).unwrap();
    let ids = vec![
        String::from("deadbeef"),
        present.clone(),
        String::from("deadbeef"),
        String::from("feedface"),
        String::from("feedface"),
    ];
    let missing = tables.get_missing_blobs(&ids);
    assert_eq!(missing.len(), 2);
    assert!(missing.contains(&String::from("deadbeef")));
    assert!(missing.contains(&String::from("feedface")));
}

#[test]
fn flush_decision_carries_each_reply() {
    let data = offs::errors::JournalApplyData {
        assigned_ids: vec![String::from("aa")],
        dir_entities: vec![],
    };
    match flush_decision(Ok(data)) {
        FlushStep::Reconcile(d) => assert_eq!(d.assigned_ids, vec![String::from("aa")]),
        _ => panic!("expected a reconcile step"),
    }
    match flush_decision(Err(JournalApplyError::ConflictingFiles(vec![String::from("x")]))) {
        FlushStep::Recreate(ids) => assert_eq!(ids, vec![String::from("x")]),
        _ => panic!("expected a recreate step"),
    }
    assert!(matches!(
        flush_decision(Err(JournalApplyError::MissingBlobs(vec![]))),
        FlushStep::Retry
    ));
    assert!(matches!(
        flush_decision(Err(JournalApplyError::InvalidJournal)),
        FlushStep::Fatal
    ));
}

#[test]
fn empty_journal_flush_clears_the_flag() {
    let mut client = new_client(true);
    client.set_offline(false);
    assert!(client.should_flush_journal);
    let ops = client.prepare_ops_to_send().unwrap();
    assert!(ops.is_empty());
    client.mark_journal_flushed();
    assert!(!client.should_flush_journal);
}

#[test]
fn symlinks_carry_full_permissions() {
    let mut server = new_server();
    let root = server.store.query_file("root").unwrap();
    let op = ModifyOpBuilder::make_create_symlink_op(&root, t(3), "ln", "target");
    let id = OperationApplier::apply_operation(&mut server, &op).unwrap();
    let ent = server.store.query_file(&id).unwrap();
    assert_eq!(ent.stat.mode, 0o777);
    assert_eq!(ent.stat.file_type, FileType::Symlink);
}
