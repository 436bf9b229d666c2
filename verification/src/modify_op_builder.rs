//! Builders for modify operations: each captures the target entity's
//! observed versions in the operation header.

use vstd::prelude::*;

use crate::modify_op::{
    CreateDirectoryOperation, CreateFileOperation, CreateSymlinkOperation, ModifyOperation,
    ModifyOperationContent, RemoveDirectoryOperation, RemoveFileOperation, RenameOperation,
    SetAttributesOperation, WriteOperation,
};
use crate::timespec::Timespec;
use crate::types::{DirEntity, FileDev, FileMode, FileType};

verus! {

/// Builds modify operations against a cached entity.
pub struct ModifyOpBuilder;

impl ModifyOpBuilder {
    /// The common header: the entity's id and the versions the client
    /// observed, stamped with the given time.
    fn create_modify_op(dirent: &DirEntity, timestamp: Timespec, content: ModifyOperationContent)
        -> (r: ModifyOperation)
        ensures
            r@.id == dirent@.id,
            r@.timestamp == timestamp,
            r@.dirent_version == dirent@.dirent_version,
            r@.content_version == dirent@.content_version,
            r@.operation == content@,
    {
        ModifyOperation {
            id: crate::clone_string(&dirent.id),
            timestamp,
            dirent_version: dirent.dirent_version,
            content_version: dirent.content_version,
            operation: content,
        }
    }

    pub fn make_create_file_op(
        parent_dirent: &DirEntity,
        timestamp: Timespec,
        name: &str,
        file_type: FileType,
        perm: FileMode,
        dev: FileDev,
    ) -> (r: ModifyOperation)
        ensures
            r@.id == parent_dirent@.id,
            r@.timestamp == timestamp,
            r@.dirent_version == parent_dirent@.dirent_version,
            r@.content_version == parent_dirent@.content_version,
            r@.operation == crate::modify_op::ModifyOperationContentView::CreateFileOperation(
                crate::modify_op::CreateFileOperationView { name: name@, file_type, perm, dev },
            ),
    {
        let operation = CreateFileOperation {
            name: String::from_str(name),
            file_type,
            perm,
            dev,
        };
        Self::create_modify_op(
            parent_dirent,
            timestamp,
            ModifyOperationContent::CreateFileOperation(operation),
        )
    }

    pub fn make_create_symlink_op(
        parent_dirent: &DirEntity,
        timestamp: Timespec,
        name: &str,
        link: &str,
    ) -> (r: ModifyOperation)
        ensures
            r@.id == parent_dirent@.id,
            r@.timestamp == timestamp,
            r@.dirent_version == parent_dirent@.dirent_version,
            r@.content_version == parent_dirent@.content_version,
            r@.operation == crate::modify_op::ModifyOperationContentView::CreateSymlinkOperation(
                crate::modify_op::CreateSymlinkOperationView { name: name@, link: link@ },
            ),
    {
        let operation = CreateSymlinkOperation {
            name: String::from_str(name),
            link: String::from_str(link),
        };
        Self::create_modify_op(
            parent_dirent,
            timestamp,
            ModifyOperationContent::CreateSymlinkOperation(operation),
        )
    }

    pub fn make_create_directory_op(
        parent_dirent: &DirEntity,
        timestamp: Timespec,
        name: &str,
        perm: FileMode,
    ) -> (r: ModifyOperation)
        ensures
            r@.id == parent_dirent@.id,
            r@.timestamp == timestamp,
            r@.dirent_version == parent_dirent@.dirent_version,
            r@.content_version == parent_dirent@.content_version,
            r@.operation == crate::modify_op::ModifyOperationContentView::CreateDirectoryOperation(
                crate::modify_op::CreateDirectoryOperationView { name: name@, perm },
            ),
    {
        let operation = CreateDirectoryOperation { name: String::from_str(name), perm };
        Self::create_modify_op(
            parent_dirent,
            timestamp,
            ModifyOperationContent::CreateDirectoryOperation(operation),
        )
    }

    pub fn make_remove_file_op(dirent: &DirEntity, timestamp: Timespec) -> (r: ModifyOperation)
        ensures
            r@.id == dirent@.id,
            r@.timestamp == timestamp,
            r@.dirent_version == dirent@.dirent_version,
            r@.content_version == dirent@.content_version,
            r@.operation == crate::modify_op::ModifyOperationContentView::RemoveFileOperation(
                RemoveFileOperation {  },
            ),
    {
        Self::create_modify_op(
            dirent,
            timestamp,
            ModifyOperationContent::RemoveFileOperation(RemoveFileOperation {  }),
        )
    }

    pub fn make_remove_directory_op(dirent: &DirEntity, timestamp: Timespec) -> (r:
        ModifyOperation)
        ensures
            r@.id == dirent@.id,
            r@.timestamp == timestamp,
            r@.dirent_version == dirent@.dirent_version,
            r@.content_version == dirent@.content_version,
            r@.operation == crate::modify_op::ModifyOperationContentView::RemoveDirectoryOperation(
                RemoveDirectoryOperation {  },
            ),
    {
        Self::create_modify_op(
            dirent,
            timestamp,
            ModifyOperationContent::RemoveDirectoryOperation(RemoveDirectoryOperation {  }),
        )
    }

    pub fn make_rename_op(
        dirent: &DirEntity,
        timestamp: Timespec,
        new_parent: &str,
        new_name: &str,
    ) -> (r: ModifyOperation)
        ensures
            r@.id == dirent@.id,
            r@.timestamp == timestamp,
            r@.dirent_version == dirent@.dirent_version,
            r@.content_version == dirent@.content_version,
            r@.operation == crate::modify_op::ModifyOperationContentView::RenameOperation(
                crate::modify_op::RenameOperationView {
                    new_parent: new_parent@,
                    new_name: new_name@,
                },
            ),
    {
        let operation = RenameOperation {
            new_parent: String::from_str(new_parent),
            new_name: String::from_str(new_name),
        };
        Self::create_modify_op(
            dirent,
            timestamp,
            ModifyOperationContent::RenameOperation(operation),
        )
    }

    pub fn make_set_attributes_op(
        dirent: &DirEntity,
        timestamp: Timespec,
        perm: Option<FileMode>,
        uid: Option<u32>,
        gid: Option<u32>,
        size: Option<u64>,
        atim: Option<Timespec>,
        mtim: Option<Timespec>,
    ) -> (r: ModifyOperation)
        ensures
            r@.id == dirent@.id,
            r@.timestamp == timestamp,
            r@.dirent_version == dirent@.dirent_version,
            r@.content_version == dirent@.content_version,
            r@.operation == crate::modify_op::ModifyOperationContentView::SetAttributesOperation(
                SetAttributesOperation { perm, uid, gid, size, atim, mtim },
            ),
    {
        Self::create_modify_op(
            dirent,
            timestamp,
            ModifyOperationContent::SetAttributesOperation(
                SetAttributesOperation { perm, uid, gid, size, atim, mtim },
            ),
        )
    }

    pub fn make_write_op(dirent: &DirEntity, timestamp: Timespec, offset: i64, data: Vec<u8>)
        -> (r: ModifyOperation)
        ensures
            r@.id == dirent@.id,
            r@.timestamp == timestamp,
            r@.dirent_version == dirent@.dirent_version,
            r@.content_version == dirent@.content_version,
            r@.operation == crate::modify_op::ModifyOperationContentView::WriteOperation(
                crate::modify_op::WriteOperationView { offset, data: data@ },
            ),
    {
        Self::create_modify_op(
            dirent,
            timestamp,
            ModifyOperationContent::WriteOperation(WriteOperation { offset, data }),
        )
    }

    /// The operation that re-creates a conflicted file under its parent
    /// with its original name, mode and device.
    pub fn make_recreate_file_op(parent: &DirEntity, timestamp: Timespec, file: &DirEntity) -> (r:
        ModifyOperation)
        ensures
            r@.id == parent@.id,
            r@.timestamp == timestamp,
            r@.dirent_version == parent@.dirent_version,
            r@.content_version == parent@.content_version,
            r@.operation == crate::modify_op::ModifyOperationContentView::CreateFileOperation(
                crate::modify_op::CreateFileOperationView {
                    name: file@.name,
                    file_type: file@.stat.file_type,
                    perm: file@.stat.mode,
                    dev: file@.stat.dev,
                },
            ),
    {
        let operation = CreateFileOperation {
            name: crate::clone_string(&file.name),
            file_type: file.stat.file_type,
            perm: file.stat.mode,
            dev: file.stat.dev,
        };
        Self::create_modify_op(
            parent,
            timestamp,
            ModifyOperationContent::CreateFileOperation(operation),
        )
    }

    /// The operation that restores a re-created file's full attributes.
    pub fn make_reset_attributes_op(file: &DirEntity, timestamp: Timespec) -> (r: ModifyOperation)
        ensures
            r@.id == file@.id,
            r@.timestamp == timestamp,
            r@.dirent_version == file@.dirent_version,
            r@.content_version == file@.content_version,
            r@.operation == crate::modify_op::ModifyOperationContentView::SetAttributesOperation(
                SetAttributesOperation {
                    perm: Some(file@.stat.mode),
                    uid: Some(file@.stat.uid),
                    gid: Some(file@.stat.gid),
                    size: Some(file@.stat.size),
                    atim: Some(file@.stat.atim),
                    mtim: Some(file@.stat.mtim),
                },
            ),
    {
        Self::create_modify_op(
            file,
            timestamp,
            ModifyOperationContent::SetAttributesOperation(
                SetAttributesOperation {
                    perm: Some(file.stat.mode),
                    uid: Some(file.stat.uid),
                    gid: Some(file.stat.gid),
                    size: Some(file.stat.size),
                    atim: Some(file.stat.atim),
                    mtim: Some(file.stat.mtim),
                },
            ),
        )
    }
}

} // verus!
