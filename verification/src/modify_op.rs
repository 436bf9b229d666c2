//! The modify-operation model: a tagged variant with a common header
//! covering the eight mutations a client can issue.

use vstd::prelude::*;

use crate::timespec::Timespec;
use crate::types::{FileDev, FileMode, FileType};

verus! {

/// The mathematical value of a create-file payload.
pub struct CreateFileOperationView {
    pub name: Seq<char>,
    pub file_type: FileType,
    pub perm: FileMode,
    pub dev: FileDev,
}

/// Creates a regular or special file `name` under the header's id.
#[derive(Clone, Debug)]
pub struct CreateFileOperation {
    pub name: String,
    pub file_type: FileType,
    pub perm: FileMode,
    pub dev: FileDev,
}

impl View for CreateFileOperation {
    type V = CreateFileOperationView;

    open spec fn view(&self) -> CreateFileOperationView {
        CreateFileOperationView {
            name: self.name@,
            file_type: self.file_type,
            perm: self.perm,
            dev: self.dev,
        }
    }
}

/// The mathematical value of a create-symlink payload.
pub struct CreateSymlinkOperationView {
    pub name: Seq<char>,
    pub link: Seq<char>,
}

/// Creates a symlink `name` with target path `link` under the header's id.
#[derive(Clone, Debug)]
pub struct CreateSymlinkOperation {
    pub name: String,
    pub link: String,
}

impl View for CreateSymlinkOperation {
    type V = CreateSymlinkOperationView;

    open spec fn view(&self) -> CreateSymlinkOperationView {
        CreateSymlinkOperationView { name: self.name@, link: self.link@ }
    }
}

/// The mathematical value of a create-directory payload.
pub struct CreateDirectoryOperationView {
    pub name: Seq<char>,
    pub perm: FileMode,
}

/// Creates a directory `name` under the header's id.
#[derive(Clone, Debug)]
pub struct CreateDirectoryOperation {
    pub name: String,
    pub perm: FileMode,
}

impl View for CreateDirectoryOperation {
    type V = CreateDirectoryOperationView;

    open spec fn view(&self) -> CreateDirectoryOperationView {
        CreateDirectoryOperationView { name: self.name@, perm: self.perm }
    }
}

/// Removes the file the header's id names.
#[derive(Clone, Copy, Debug, PartialEq, Eq, Structural)]
pub struct RemoveFileOperation {}

/// Removes the directory the header's id names.
#[derive(Clone, Copy, Debug, PartialEq, Eq, Structural)]
pub struct RemoveDirectoryOperation {}

/// The mathematical value of a rename payload.
pub struct RenameOperationView {
    pub new_parent: Seq<char>,
    pub new_name: Seq<char>,
}

/// Moves the header's entity under `new_parent` as `new_name`.
#[derive(Clone, Debug)]
pub struct RenameOperation {
    pub new_parent: String,
    pub new_name: String,
}

impl View for RenameOperation {
    type V = RenameOperationView;

    open spec fn view(&self) -> RenameOperationView {
        RenameOperationView { new_parent: self.new_parent@, new_name: self.new_name@ }
    }
}

/// Sets any of six optional attributes on the header's entity.
#[derive(Clone, Copy, Debug, PartialEq, Eq, Structural)]
pub struct SetAttributesOperation {
    pub perm: Option<FileMode>,
    pub uid: Option<u32>,
    pub gid: Option<u32>,
    pub size: Option<u64>,
    pub atim: Option<Timespec>,
    pub mtim: Option<Timespec>,
}

/// The mathematical value of a write payload.
pub struct WriteOperationView {
    pub offset: i64,
    pub data: Seq<u8>,
}

/// Writes `data` at byte `offset` of the header's entity.
#[derive(Clone, Debug)]
pub struct WriteOperation {
    pub offset: i64,
    pub data: Vec<u8>,
}

impl View for WriteOperation {
    type V = WriteOperationView;

    open spec fn view(&self) -> WriteOperationView {
        WriteOperationView { offset: self.offset, data: self.data@ }
    }
}

/// The mathematical value of an operation payload.
pub enum ModifyOperationContentView {
    CreateFileOperation(CreateFileOperationView),
    CreateSymlinkOperation(CreateSymlinkOperationView),
    CreateDirectoryOperation(CreateDirectoryOperationView),
    RemoveFileOperation(RemoveFileOperation),
    RemoveDirectoryOperation(RemoveDirectoryOperation),
    RenameOperation(RenameOperationView),
    SetAttributesOperation(SetAttributesOperation),
    WriteOperation(WriteOperationView),
}

/// The payload of a modify operation.
#[derive(Clone, Debug)]
pub enum ModifyOperationContent {
    CreateFileOperation(CreateFileOperation),
    CreateSymlinkOperation(CreateSymlinkOperation),
    CreateDirectoryOperation(CreateDirectoryOperation),
    RemoveFileOperation(RemoveFileOperation),
    RemoveDirectoryOperation(RemoveDirectoryOperation),
    RenameOperation(RenameOperation),
    SetAttributesOperation(SetAttributesOperation),
    WriteOperation(WriteOperation),
}

impl View for ModifyOperationContent {
    type V = ModifyOperationContentView;

    open spec fn view(&self) -> ModifyOperationContentView {
        match self {
            ModifyOperationContent::CreateFileOperation(op) => {
                ModifyOperationContentView::CreateFileOperation(op@)
            },
            ModifyOperationContent::CreateSymlinkOperation(op) => {
                ModifyOperationContentView::CreateSymlinkOperation(op@)
            },
            ModifyOperationContent::CreateDirectoryOperation(op) => {
                ModifyOperationContentView::CreateDirectoryOperation(op@)
            },
            ModifyOperationContent::RemoveFileOperation(op) => {
                ModifyOperationContentView::RemoveFileOperation(*op)
            },
            ModifyOperationContent::RemoveDirectoryOperation(op) => {
                ModifyOperationContentView::RemoveDirectoryOperation(*op)
            },
            ModifyOperationContent::RenameOperation(op) => {
                ModifyOperationContentView::RenameOperation(op@)
            },
            ModifyOperationContent::SetAttributesOperation(op) => {
                ModifyOperationContentView::SetAttributesOperation(*op)
            },
            ModifyOperationContent::WriteOperation(op) => {
                ModifyOperationContentView::WriteOperation(op@)
            },
        }
    }
}

/// The views of a sequence of operations.
pub open spec fn ops_views(l: Seq<ModifyOperation>) -> Seq<ModifyOperationView> {
    l.map_values(|o: ModifyOperation| o@)
}

/// Whether a payload is one of the three create variants; only those
/// resolve to a new id when applied.
pub open spec fn is_create_content(c: ModifyOperationContentView) -> bool {
    match c {
        ModifyOperationContentView::CreateFileOperation(_) => true,
        ModifyOperationContentView::CreateSymlinkOperation(_) => true,
        ModifyOperationContentView::CreateDirectoryOperation(_) => true,
        _ => false,
    }
}

/// The mathematical value of a modify operation.
pub struct ModifyOperationView {
    pub id: Seq<char>,
    pub timestamp: Timespec,
    pub dirent_version: i64,
    pub content_version: i64,
    pub operation: ModifyOperationContentView,
}

/// A modify operation: the common header and one payload. The header's
/// `id` is the parent id for the three create variants and the target id
/// for all others; the version fields capture what the client believed
/// the target's versions were when it synthesized the operation.
#[derive(Clone, Debug)]
pub struct ModifyOperation {
    pub id: String,
    pub timestamp: Timespec,
    pub dirent_version: i64,
    pub content_version: i64,
    pub operation: ModifyOperationContent,
}

impl View for ModifyOperation {
    type V = ModifyOperationView;

    open spec fn view(&self) -> ModifyOperationView {
        ModifyOperationView {
            id: self.id@,
            timestamp: self.timestamp,
            dirent_version: self.dirent_version,
            content_version: self.content_version,
            operation: self.operation@,
        }
    }
}

impl ModifyOperation {
    /// A copy of the operation with the same value.
    pub fn duplicate(&self) -> (r: ModifyOperation)
        ensures
            r@ == self@,
    {
        let operation = match &self.operation {
            ModifyOperationContent::CreateFileOperation(op) => {
                ModifyOperationContent::CreateFileOperation(
                    CreateFileOperation {
                        name: crate::clone_string(&op.name),
                        file_type: op.file_type,
                        perm: op.perm,
                        dev: op.dev,
                    },
                )
            },
            ModifyOperationContent::CreateSymlinkOperation(op) => {
                ModifyOperationContent::CreateSymlinkOperation(
                    CreateSymlinkOperation {
                        name: crate::clone_string(&op.name),
                        link: crate::clone_string(&op.link),
                    },
                )
            },
            ModifyOperationContent::CreateDirectoryOperation(op) => {
                ModifyOperationContent::CreateDirectoryOperation(
                    CreateDirectoryOperation {
                        name: crate::clone_string(&op.name),
                        perm: op.perm,
                    },
                )
            },
            ModifyOperationContent::RemoveFileOperation(op) => {
                ModifyOperationContent::RemoveFileOperation(*op)
            },
            ModifyOperationContent::RemoveDirectoryOperation(op) => {
                ModifyOperationContent::RemoveDirectoryOperation(*op)
            },
            ModifyOperationContent::RenameOperation(op) => {
                ModifyOperationContent::RenameOperation(
                    RenameOperation {
                        new_parent: crate::clone_string(&op.new_parent),
                        new_name: crate::clone_string(&op.new_name),
                    },
                )
            },
            ModifyOperationContent::SetAttributesOperation(op) => {
                ModifyOperationContent::SetAttributesOperation(*op)
            },
            ModifyOperationContent::WriteOperation(op) => {
                ModifyOperationContent::WriteOperation(
                    WriteOperation { offset: op.offset, data: crate::clone_bytes(&op.data) },
                )
            },
        };
        ModifyOperation {
            id: crate::clone_string(&self.id),
            timestamp: self.timestamp,
            dirent_version: self.dirent_version,
            content_version: self.content_version,
            operation,
        }
    }
}

} // verus!
