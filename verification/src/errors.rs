//! One error taxonomy spanning client and server.

use vstd::prelude::*;

use crate::types::DirEntity;

verus! {

/// The kind of an operation error.
#[derive(Clone, Copy, Debug, PartialEq, Eq, Structural)]
pub enum OperationErrorType {
    DatabaseError,
    DirectoryNotEmpty,
    ConflictedFile,
    InvalidContentVersion,
    BlobDoesNotExist,
    Offline,
    FileDoesNotExist,
    InvalidUnicode,
}

/// An error of a filesystem operation: a kind, a human-readable message,
/// and an opaque details payload (for [`OperationErrorType::ConflictedFile`]
/// it carries the conflicting id's bytes).
#[derive(Clone, Debug)]
pub struct OperationError {
    pub error_type: OperationErrorType,
    pub message: String,
    pub details: Vec<u8>,
}

impl OperationError {
    pub fn new(error_type: OperationErrorType, message: String) -> (r: OperationError)
        ensures
            r.error_type == error_type,
            r.message@ == message@,
            r.details@ == Seq::<u8>::empty(),
    {
        OperationError { error_type, message, details: Vec::new() }
    }

    pub fn with_details(error_type: OperationErrorType, message: String, details: Vec<u8>) -> (r:
        OperationError)
        ensures
            r.error_type == error_type,
            r.message@ == message@,
            r.details@ == details@,
    {
        OperationError { error_type, message, details }
    }

    pub fn directory_not_empty() -> (r: OperationError)
        ensures
            r.error_type == OperationErrorType::DirectoryNotEmpty,
    {
        Self::new(OperationErrorType::DirectoryNotEmpty, String::from_str("Directory not empty"))
    }

    /// A deferred operation lost to newer content; `details` carries the
    /// UTF-8 bytes of the conflicting entity's id.
    pub fn conflicted_file(id: String) -> (r: OperationError)
        ensures
            r.error_type == OperationErrorType::ConflictedFile,
            r.details@ == vstd::utf8::encode_utf8(id@),
    {
        let details = id.as_str().as_bytes_vec();
        OperationError {
            error_type: OperationErrorType::ConflictedFile,
            message: String::from_str("Conflicted file"),
            details,
        }
    }

    pub fn invalid_content_version() -> (r: OperationError)
        ensures
            r.error_type == OperationErrorType::InvalidContentVersion,
    {
        Self::new(
            OperationErrorType::InvalidContentVersion,
            String::from_str("Invalid content version"),
        )
    }

    pub fn blob_does_not_exist() -> (r: OperationError)
        ensures
            r.error_type == OperationErrorType::BlobDoesNotExist,
    {
        Self::new(OperationErrorType::BlobDoesNotExist, String::from_str("Blob does not exist"))
    }

    pub fn offline() -> (r: OperationError)
        ensures
            r.error_type == OperationErrorType::Offline,
    {
        Self::new(OperationErrorType::Offline, String::from_str("The client is currently offline"))
    }

    pub fn file_does_not_exist() -> (r: OperationError)
        ensures
            r.error_type == OperationErrorType::FileDoesNotExist,
    {
        Self::new(OperationErrorType::FileDoesNotExist, String::from_str("File does not exist"))
    }

    pub fn invalid_unicode() -> (r: OperationError)
        ensures
            r.error_type == OperationErrorType::InvalidUnicode,
    {
        Self::new(OperationErrorType::InvalidUnicode, String::from_str("Invalid unicode string"))
    }
}

/// The result of a filesystem operation.
pub type OperationResult<T> = Result<T, OperationError>;

/// The POSIX errno an error kind surfaces as through the kernel shim.
pub open spec fn spec_to_os_error(t: OperationErrorType) -> i32 {
    match t {
        OperationErrorType::DatabaseError => 131,  // ENOTRECOVERABLE
        OperationErrorType::DirectoryNotEmpty => 39,  // ENOTEMPTY
        OperationErrorType::ConflictedFile => 17,  // EEXIST
        OperationErrorType::InvalidContentVersion => 77,  // EBADFD
        OperationErrorType::BlobDoesNotExist => 2,  // ENOENT
        OperationErrorType::Offline => 110,  // ETIMEDOUT
        OperationErrorType::FileDoesNotExist => 2,  // ENOENT
        OperationErrorType::InvalidUnicode => 22,  // EINVAL
    }
}

/// Maps an operation error to the POSIX errno it surfaces as.
pub fn to_os_error(operation_error: &OperationError) -> (r: i32)
    ensures
        r == spec_to_os_error(operation_error.error_type),
{
    match operation_error.error_type {
        OperationErrorType::DatabaseError => 131,
        OperationErrorType::DirectoryNotEmpty => 39,
        OperationErrorType::ConflictedFile => 17,
        OperationErrorType::InvalidContentVersion => 77,
        OperationErrorType::BlobDoesNotExist => 2,
        OperationErrorType::Offline => 110,
        OperationErrorType::FileDoesNotExist => 2,
        OperationErrorType::InvalidUnicode => 22,
    }
}

/// The coarser error surface the kernel shim works with.
#[derive(Clone, Copy, Debug, PartialEq, Eq, Structural)]
pub enum RemoteFsErrorKind {
    NoEntry,
    InvalidValue,
    Offline,
    TransactionFailure,
    DirectoryNotEmpty,
}

/// An error as the kernel shim sees it.
#[derive(Clone, Copy, Debug, PartialEq, Eq, Structural)]
pub struct RemoteFsError {
    pub kind: RemoteFsErrorKind,
}

impl RemoteFsError {
    pub fn new(kind: RemoteFsErrorKind) -> (r: RemoteFsError)
        ensures
            r.kind == kind,
    {
        RemoteFsError { kind }
    }

    /// The POSIX errno the shim reports for this error.
    pub fn to_os_error(&self) -> (r: i32)
        ensures
            r == spec_remote_fs_os_error(self.kind),
    {
        match self.kind {
            RemoteFsErrorKind::NoEntry => 2,
            RemoteFsErrorKind::InvalidValue => 84,
            RemoteFsErrorKind::Offline => 61,
            RemoteFsErrorKind::TransactionFailure => 131,
            RemoteFsErrorKind::DirectoryNotEmpty => 39,
        }
    }

    /// Coarsens an operation error to the shim's error surface.
    pub fn from_operation_error(error: &OperationError) -> (r: RemoteFsError)
        ensures
            r.kind == spec_coarsen_error(error.error_type),
    {
        let kind = match error.error_type {
            OperationErrorType::DatabaseError => RemoteFsErrorKind::TransactionFailure,
            OperationErrorType::DirectoryNotEmpty => RemoteFsErrorKind::DirectoryNotEmpty,
            OperationErrorType::ConflictedFile => RemoteFsErrorKind::InvalidValue,
            OperationErrorType::InvalidContentVersion => RemoteFsErrorKind::InvalidValue,
            OperationErrorType::BlobDoesNotExist => RemoteFsErrorKind::InvalidValue,
            OperationErrorType::Offline => RemoteFsErrorKind::Offline,
            OperationErrorType::FileDoesNotExist => RemoteFsErrorKind::NoEntry,
            OperationErrorType::InvalidUnicode => RemoteFsErrorKind::InvalidValue,
        };
        RemoteFsError { kind }
    }
}

/// The POSIX errno of each shim-level error kind: ENOENT, EILSEQ,
/// ENODATA, ENOTRECOVERABLE and ENOTEMPTY respectively.
pub open spec fn spec_remote_fs_os_error(kind: RemoteFsErrorKind) -> i32 {
    match kind {
        RemoteFsErrorKind::NoEntry => 2,
        RemoteFsErrorKind::InvalidValue => 84,
        RemoteFsErrorKind::Offline => 61,
        RemoteFsErrorKind::TransactionFailure => 131,
        RemoteFsErrorKind::DirectoryNotEmpty => 39,
    }
}

/// How each operation error coarsens for the shim.
pub open spec fn spec_coarsen_error(t: OperationErrorType) -> RemoteFsErrorKind {
    match t {
        OperationErrorType::DatabaseError => RemoteFsErrorKind::TransactionFailure,
        OperationErrorType::DirectoryNotEmpty => RemoteFsErrorKind::DirectoryNotEmpty,
        OperationErrorType::ConflictedFile => RemoteFsErrorKind::InvalidValue,
        OperationErrorType::InvalidContentVersion => RemoteFsErrorKind::InvalidValue,
        OperationErrorType::BlobDoesNotExist => RemoteFsErrorKind::InvalidValue,
        OperationErrorType::Offline => RemoteFsErrorKind::Offline,
        OperationErrorType::FileDoesNotExist => RemoteFsErrorKind::NoEntry,
        OperationErrorType::InvalidUnicode => RemoteFsErrorKind::InvalidValue,
    }
}

/// Why a journal submission was rejected by the server.
#[derive(Debug)]
pub enum JournalApplyError {
    /// The journal cannot be applied at all; the client's journal is
    /// corrupt and unsalvageable.
    InvalidJournal,
    /// These files lost a content conflict; the client re-creates them
    /// under fresh temporary ids and resubmits.
    ConflictingFiles(Vec<String>),
    /// The server lacks these blobs; the client resubmits with them inlined.
    MissingBlobs(Vec<String>),
}

/// What a successful journal application returns: the authoritative id
/// assigned to each create operation, in journal order, and the
/// authoritative entity for every processed id.
pub struct JournalApplyData {
    pub assigned_ids: Vec<String>,
    pub dir_entities: Vec<DirEntity>,
}

impl JournalApplyData {
    pub fn empty() -> (r: JournalApplyData)
        ensures
            r.assigned_ids@ == Seq::<String>::empty(),
            r.dir_entities@ == Seq::<DirEntity>::empty(),
    {
        JournalApplyData { assigned_ids: Vec::new(), dir_entities: Vec::new() }
    }
}

/// The result of applying a whole journal.
pub type JournalApplyResult = Result<JournalApplyData, JournalApplyError>;

} // verus!
