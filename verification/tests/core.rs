//! Unit-level behavior of the stores, buffers, ids and the wire format.

use offs::blob_id::trim_trailing_zeros;
use offs::decimal::u64_to_dec_string;
use offs::errors::{to_os_error, OperationError, OperationErrorType};
use offs::id_generator::{IdGenerator, LocalTempIdGenerator, RandomHexIdGenerator};
use offs::modify_op::{
    CreateFileOperation, ModifyOperation, ModifyOperationContent, SetAttributesOperation,
    WriteOperation as OpWrite,
};
use offs::open_file_handler::OpenFileHandler;
use offs::serialization::{deserialize_op, serialize_op};
use offs::store::{Store, StoreTables};
use offs::timespec::Timespec;
use offs::types::{file_type_from_u8, file_type_to_u8, FileType};
use offs::write_buffer::{WriteBuffer, WriteOperation, FLUSH_THRESHOLD};

#[test]
fn trim_strips_trailing_zeros_only() {
    assert_eq!(trim_trailing_zeros(&[1, 2, 0, 3, 0, 0]), vec![1, 2, 0, 3]);
    assert_eq!(trim_trailing_zeros(&[0, 0, 0]), Vec::<u8>::new());
    assert_eq!(trim_trailing_zeros(&[]), Vec::<u8>::new());
    assert_eq!(trim_trailing_zeros(&[5]), vec![5]);
}

#[test]
fn blob_id_is_sha256_of_trimmed_content() {
    let mut tables = StoreTables::new();
    let id = tables.add_blob(b"abc").unwrap();
    // The digest of "abc" is a fixed, well-known value.
    assert_eq!(
        id,
        "ba7816bf8f01cfea414140de5dae2223b00361a396177a9cb410ff61f20015ad"
    );
}

#[test]
fn blob_insertion_is_idempotent() {
    let mut tables = StoreTables::new();
    let a = tables.add_blob(&[9, 8, 7]).unwrap();
    let b = tables.add_blob(&[9, 8, 7]).unwrap();
    assert_eq!(a, b);
    assert_eq!(tables.get_blob(&a).unwrap(), vec![9, 8, 7]);
}

#[test]
fn blob_zero_trim_canonicalizes() {
    let mut tables = StoreTables::new();
    let a = tables.add_blob(&[9, 8, 7]).unwrap();
    let b = tables.add_blob(&[9, 8, 7, 0, 0, 0, 0]).unwrap();
    assert_eq!(a, b);
    assert_eq!(tables.get_blob(&b).unwrap(), vec![9, 8, 7]);
}

#[test]
fn empty_blob_is_canonical() {
    let mut tables = StoreTables::new();
    let a = tables.add_blob(&[]).unwrap();
    let b = tables.add_blob(&[0, 0, 0]).unwrap();
    assert_eq!(a, b);
    assert_eq!(tables.get_blob(&a).unwrap(), Vec::<u8>::new());
}

#[test]
fn missing_blobs_reports_absent_ids() {
    let mut tables = StoreTables::new();
    let present = tables.add_blob(&[1]).unwrap();
    let ids = vec![present.clone(), String::from("deadbeef")];
    let missing = tables.get_missing_blobs(&ids);
    assert_eq!(missing, vec![String::from("deadbeef")]);
    assert!(tables.get_blob("deadbeef").is_err());
}

#[test]
fn decimal_renders_plainly() {
    assert_eq!(u64_to_dec_string(0), "0");
    assert_eq!(u64_to_dec_string(7), "7");
    assert_eq!(u64_to_dec_string(12345), "12345");
    assert_eq!(u64_to_dec_string(10000000019), "10000000019");
}

#[test]
fn temp_ids_are_zero_padded_and_parse_back() {
    assert_eq!(
        LocalTempIdGenerator::get_nth_id(42),
        "temp-00000000000000000042"
    );
    assert_eq!(
        LocalTempIdGenerator::get_nth_id(0),
        "temp-00000000000000000000"
    );
    assert_eq!(LocalTempIdGenerator::get_n("temp-00000000000000000042"), 42);
    assert!(LocalTempIdGenerator::is_local_id("temp-00000000000000000042"));
    assert!(!LocalTempIdGenerator::is_local_id("root"));
    assert!(!LocalTempIdGenerator::is_local_id("tem"));
}

#[test]
fn temp_generator_counts_up() {
    let mut g = LocalTempIdGenerator::new();
    assert_eq!(g.generate_id(), "temp-00000000000000000000");
    assert_eq!(g.generate_id(), "temp-00000000000000000001");
    g.reset_generator();
    assert_eq!(g.generate_id(), "temp-00000000000000000000");
}

#[test]
fn random_ids_are_32_hex_chars_and_not_temp() {
    let mut g = RandomHexIdGenerator::new();
    let id = g.generate_id();
    assert_eq!(id.len(), 32);
    assert!(id.chars().all(|c| c.is_ascii_hexdigit()));
    assert!(!LocalTempIdGenerator::is_local_id(&id));
    let id2 = g.generate_id();
    assert_ne!(id, id2);
}

#[test]
fn write_buffer_flushes_exactly_at_threshold() {
    let mut buffer = WriteBuffer::new();
    let almost = FLUSH_THRESHOLD - 1;
    let full = buffer.write(WriteOperation::new(0, vec![1u8; almost]));
    assert!(!full);
    assert!(!buffer.is_full());
    let full2 = buffer.write(WriteOperation::new(almost, vec![2u8]));
    assert!(full2);
    assert!(buffer.is_full());
}

#[test]
fn write_buffer_coalesces_adjacent_runs() {
    let mut buffer = WriteBuffer::new();
    let _ = buffer.write(WriteOperation::new(10, vec![9]));
    let _ = buffer.write(WriteOperation::new(0, vec![1, 2]));
    let _ = buffer.write(WriteOperation::new(2, vec![3, 4]));
    let flushed = buffer.flush();
    assert_eq!(flushed.len(), 2);
    assert_eq!(flushed[0].offset, 0);
    assert_eq!(flushed[0].data, vec![1, 2, 3, 4]);
    assert_eq!(flushed[1].offset, 10);
    assert_eq!(flushed[1].data, vec![9]);
    assert!(!buffer.is_full());
    assert_eq!(buffer.flush().len(), 0);
}

#[test]
fn open_file_handler_hands_out_handles_from_one() {
    let mut handler = OpenFileHandler::new();
    let a = handler.open_file(String::from("idA"));
    let b = handler.open_file(String::from("idB"));
    assert_eq!(a, 1);
    assert_eq!(b, 2);
    assert_eq!(handler.get_file_handles(), vec![1, 2]);
    let _ = handler.write(a, WriteOperation::new(0, vec![1, 2, 3]));
    let (id, ops) = handler.flush(a);
    assert_eq!(id, "idA");
    assert_eq!(ops.len(), 1);
    assert_eq!(ops[0].data, vec![1, 2, 3]);
    handler.close_file(a);
    assert_eq!(handler.get_file_handles(), vec![2]);
}

#[test]
fn file_type_tags_round_trip() {
    let all = [
        FileType::NamedPipe,
        FileType::CharDevice,
        FileType::BlockDevice,
        FileType::Directory,
        FileType::RegularFile,
        FileType::Symlink,
        FileType::Socket,
    ];
    for t in all {
        assert_eq!(file_type_from_u8(file_type_to_u8(t)), Some(t));
    }
    assert_eq!(file_type_from_u8(7), None);
}

#[test]
fn os_error_mapping_matches_the_taxonomy() {
    let err = |t| OperationError::new(t, String::from("x"));
    assert_eq!(to_os_error(&err(OperationErrorType::DatabaseError)), 131);
    assert_eq!(to_os_error(&err(OperationErrorType::DirectoryNotEmpty)), 39);
    assert_eq!(to_os_error(&err(OperationErrorType::ConflictedFile)), 17);
    assert_eq!(
        to_os_error(&err(OperationErrorType::InvalidContentVersion)),
        77
    );
    assert_eq!(to_os_error(&err(OperationErrorType::BlobDoesNotExist)), 2);
    assert_eq!(to_os_error(&err(OperationErrorType::Offline)), 110);
    assert_eq!(to_os_error(&err(OperationErrorType::FileDoesNotExist)), 2);
    assert_eq!(to_os_error(&err(OperationErrorType::InvalidUnicode)), 22);
}

#[test]
fn operations_survive_the_wire_format() {
    let op = ModifyOperation {
        id: String::from("root"),
        timestamp: Timespec { sec: 1234, nsec: 567 },
        dirent_version: 3,
        content_version: -4,
        operation: ModifyOperationContent::CreateFileOperation(CreateFileOperation {
            name: String::from("héllo.txt"),
            file_type: FileType::RegularFile,
            perm: 0o644,
            dev: 9,
        }),
    };
    let bytes = serialize_op(&op);
    let back = deserialize_op(&bytes).unwrap();
    assert_eq!(back.id, "root");
    assert_eq!(back.timestamp.sec, 1234);
    assert_eq!(back.timestamp.nsec, 567);
    assert_eq!(back.dirent_version, 3);
    assert_eq!(back.content_version, -4);
    match back.operation {
        ModifyOperationContent::CreateFileOperation(o) => {
            assert_eq!(o.name, "héllo.txt");
            assert_eq!(o.file_type, FileType::RegularFile);
            assert_eq!(o.perm, 0o644);
            assert_eq!(o.dev, 9);
        }
        _ => panic!("wrong variant"),
    }
}

#[test]
fn optional_attributes_survive_the_wire_format() {
    let op = ModifyOperation {
        id: String::from("some-id"),
        timestamp: Timespec { sec: 0, nsec: 0 },
        dirent_version: 1,
        content_version: 1,
        operation: ModifyOperationContent::SetAttributesOperation(SetAttributesOperation {
            perm: Some(0o600),
            uid: None,
            gid: Some(20),
            size: Some(4096),
            atim: None,
            mtim: Some(Timespec { sec: 99, nsec: 1 }),
        }),
    };
    let bytes = serialize_op(&op);
    let back = deserialize_op(&bytes).unwrap();
    match back.operation {
        ModifyOperationContent::SetAttributesOperation(o) => {
            assert_eq!(o.perm, Some(0o600));
            assert_eq!(o.uid, None);
            assert_eq!(o.gid, Some(20));
            assert_eq!(o.size, Some(4096));
            assert_eq!(o.atim, None);
            assert_eq!(o.mtim, Some(Timespec { sec: 99, nsec: 1 }));
        }
        _ => panic!("wrong variant"),
    }
}

#[test]
fn write_payloads_survive_the_wire_format() {
    let op = ModifyOperation {
        id: String::from("f"),
        timestamp: Timespec { sec: 5, nsec: 6 },
        dirent_version: 2,
        content_version: 2,
        operation: ModifyOperationContent::WriteOperation(OpWrite {
            offset: 65536,
            data: vec![0, 1, 2, 255],
        }),
    };
    let bytes = serialize_op(&op);
    let back = deserialize_op(&bytes).unwrap();
    match back.operation {
        ModifyOperationContent::WriteOperation(o) => {
            assert_eq!(o.offset, 65536);
            assert_eq!(o.data, vec![0, 1, 2, 255]);
        }
        _ => panic!("wrong variant"),
    }
}

#[test]
fn garbage_bytes_are_rejected_by_the_decoder() {
    assert!(deserialize_op(&vec![]).is_none());
    assert!(deserialize_op(&vec![99, 0, 0]).is_none());
    // A valid encoding with a trailing byte is rejected whole.
    let op = ModifyOperation {
        id: String::from("x"),
        timestamp: Timespec { sec: 0, nsec: 0 },
        dirent_version: 1,
        content_version: 1,
        operation: ModifyOperationContent::RemoveFileOperation(
            offs::modify_op::RemoveFileOperation {},
        ),
    };
    let mut bytes = serialize_op(&op);
    bytes.push(0);
    assert!(deserialize_op(&bytes).is_none());
}

#[test]
fn store_transactions_roll_back() {
    let mut store = Store::new(LocalTempIdGenerator::new());
    store.create_default_root_directory().unwrap();
    store.transaction_begin();
    let _ = store
        .create_file(
            "root",
            "f",
            FileType::RegularFile,
            0o644,
            0,
            Timespec { sec: 1, nsec: 0 },
        )
        .unwrap();
    assert!(store.tables.query_file_by_name("root", "f").is_some());
    store.transaction_rollback();
    assert!(store.tables.query_file_by_name("root", "f").is_none());
    assert!(store.tables.query_file("root").is_some());
}

#[test]
fn store_gc_drops_unreachable_blobs() {
    let mut tables = StoreTables::new();
    let kept = tables.add_blob(&[1, 2, 3]).unwrap();
    let dropped = tables.add_blob(&[4, 5, 6]).unwrap();
    tables.replace_chunk("file-1", 0, &kept);
    tables.run_gc();
    assert!(tables.get_blob(&kept).is_ok());
    assert!(tables.get_blob(&dropped).is_err());
}
