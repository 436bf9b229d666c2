//! The operation applier: a single dispatcher that hands a modify
//! operation to a handler, in immediate or deferred mode. Each handler
//! fixes what its methods do through the trait's transition predicates.

use vstd::prelude::*;

use crate::errors::OperationResult;
use crate::modify_op::{
    is_create_content, CreateDirectoryOperation, CreateFileOperation, CreateSymlinkOperation,
    ModifyOperation, ModifyOperationContent, ModifyOperationContentView, RemoveDirectoryOperation,
    RemoveFileOperation, RenameOperation, SetAttributesOperation, WriteOperation,
};
use crate::timespec::Timespec;

verus! {

/// A unit result lifted to carry the id the operation resolved to.
pub open spec fn with_id(r: OperationResult<()>, id: Seq<char>) -> OperationResult<Seq<char>> {
    match r {
        Ok(_) => Ok(id),
        Err(e) => Err(e),
    }
}

/// A string result as the id it carries.
pub open spec fn id_of(r: OperationResult<String>) -> OperationResult<Seq<char>> {
    match r {
        Ok(s) => Ok(s@),
        Err(e) => Err(e),
    }
}

/// A handler receives dispatched operations. `perform_post` fixes what
/// an immediate application does; `deferred_post` fixes what a deferred
/// (journal-replay) application does, which may consult the observed
/// versions for conflict detection.
pub trait OperationHandler: Sized {
    /// Whether the handler can take an operation.
    spec fn handler_inv(self) -> bool;

    /// Relates the handler before and after an immediate application.
    spec fn perform_post(
        pre: Self,
        post: Self,
        id: Seq<char>,
        timestamp: Timespec,
        content: ModifyOperationContentView,
        r: OperationResult<Seq<char>>,
    ) -> bool;

    /// State the dispatcher preserves around every application, beyond
    /// what the transition predicates say of the store model.
    spec fn handler_frame(pre: Self, post: Self) -> bool;

    /// Relates the handler before and after a deferred application.
    spec fn deferred_post(
        pre: Self,
        post: Self,
        id: Seq<char>,
        timestamp: Timespec,
        dirent_version: i64,
        content_version: i64,
        content: ModifyOperationContentView,
        r: OperationResult<Seq<char>>,
    ) -> bool;

    fn perform_create_file(
        &mut self,
        parent_id: &str,
        timestamp: Timespec,
        operation: &CreateFileOperation,
    ) -> (r: OperationResult<String>)
        requires
            old(self).handler_inv(),
        ensures
            final(self).handler_inv(),
            Self::handler_frame(*old(self), *final(self)),
            Self::perform_post(
                *old(self),
                *final(self),
                parent_id@,
                timestamp,
                ModifyOperationContentView::CreateFileOperation(operation@),
                id_of(r),
            ),
    ;

    fn perform_create_symlink(
        &mut self,
        parent_id: &str,
        timestamp: Timespec,
        operation: &CreateSymlinkOperation,
    ) -> (r: OperationResult<String>)
        requires
            old(self).handler_inv(),
        ensures
            final(self).handler_inv(),
            Self::handler_frame(*old(self), *final(self)),
            Self::perform_post(
                *old(self),
                *final(self),
                parent_id@,
                timestamp,
                ModifyOperationContentView::CreateSymlinkOperation(operation@),
                id_of(r),
            ),
    ;

    fn perform_create_directory(
        &mut self,
        parent_id: &str,
        timestamp: Timespec,
        operation: &CreateDirectoryOperation,
    ) -> (r: OperationResult<String>)
        requires
            old(self).handler_inv(),
        ensures
            final(self).handler_inv(),
            Self::handler_frame(*old(self), *final(self)),
            Self::perform_post(
                *old(self),
                *final(self),
                parent_id@,
                timestamp,
                ModifyOperationContentView::CreateDirectoryOperation(operation@),
                id_of(r),
            ),
    ;

    fn perform_remove_file(
        &mut self,
        id: &str,
        timestamp: Timespec,
        operation: &RemoveFileOperation,
    ) -> (r: OperationResult<()>)
        requires
            old(self).handler_inv(),
        ensures
            final(self).handler_inv(),
            Self::handler_frame(*old(self), *final(self)),
            Self::perform_post(
                *old(self),
                *final(self),
                id@,
                timestamp,
                ModifyOperationContentView::RemoveFileOperation(*operation),
                with_id(r, id@),
            ),
    ;

    fn perform_remove_directory(
        &mut self,
        id: &str,
        timestamp: Timespec,
        operation: &RemoveDirectoryOperation,
    ) -> (r: OperationResult<()>)
        requires
            old(self).handler_inv(),
        ensures
            final(self).handler_inv(),
            Self::handler_frame(*old(self), *final(self)),
            Self::perform_post(
                *old(self),
                *final(self),
                id@,
                timestamp,
                ModifyOperationContentView::RemoveDirectoryOperation(*operation),
                with_id(r, id@),
            ),
    ;

    fn perform_rename(
        &mut self,
        id: &str,
        timestamp: Timespec,
        operation: &RenameOperation,
    ) -> (r: OperationResult<()>)
        requires
            old(self).handler_inv(),
        ensures
            final(self).handler_inv(),
            Self::handler_frame(*old(self), *final(self)),
            Self::perform_post(
                *old(self),
                *final(self),
                id@,
                timestamp,
                ModifyOperationContentView::RenameOperation(operation@),
                with_id(r, id@),
            ),
    ;

    fn perform_set_attributes(
        &mut self,
        id: &str,
        timestamp: Timespec,
        operation: &SetAttributesOperation,
    ) -> (r: OperationResult<()>)
        requires
            old(self).handler_inv(),
        ensures
            final(self).handler_inv(),
            Self::handler_frame(*old(self), *final(self)),
            Self::perform_post(
                *old(self),
                *final(self),
                id@,
                timestamp,
                ModifyOperationContentView::SetAttributesOperation(*operation),
                with_id(r, id@),
            ),
    ;

    fn perform_write(
        &mut self,
        id: &str,
        timestamp: Timespec,
        operation: &WriteOperation,
    ) -> (r: OperationResult<()>)
        requires
            old(self).handler_inv(),
        ensures
            final(self).handler_inv(),
            Self::handler_frame(*old(self), *final(self)),
            Self::perform_post(
                *old(self),
                *final(self),
                id@,
                timestamp,
                ModifyOperationContentView::WriteOperation(operation@),
                with_id(r, id@),
            ),
    ;

    fn deferred_create_file(
        &mut self,
        parent_id: &str,
        timestamp: Timespec,
        dirent_version: i64,
        content_version: i64,
        operation: &CreateFileOperation,
    ) -> (r: OperationResult<String>)
        requires
            old(self).handler_inv(),
        ensures
            final(self).handler_inv(),
            Self::handler_frame(*old(self), *final(self)),
            Self::deferred_post(
                *old(self),
                *final(self),
                parent_id@,
                timestamp,
                dirent_version,
                content_version,
                ModifyOperationContentView::CreateFileOperation(operation@),
                id_of(r),
            ),
    ;

    fn deferred_create_symlink(
        &mut self,
        parent_id: &str,
        timestamp: Timespec,
        dirent_version: i64,
        content_version: i64,
        operation: &CreateSymlinkOperation,
    ) -> (r: OperationResult<String>)
        requires
            old(self).handler_inv(),
        ensures
            final(self).handler_inv(),
            Self::handler_frame(*old(self), *final(self)),
            Self::deferred_post(
                *old(self),
                *final(self),
                parent_id@,
                timestamp,
                dirent_version,
                content_version,
                ModifyOperationContentView::CreateSymlinkOperation(operation@),
                id_of(r),
            ),
    ;

    fn deferred_create_directory(
        &mut self,
        parent_id: &str,
        timestamp: Timespec,
        dirent_version: i64,
        content_version: i64,
        operation: &CreateDirectoryOperation,
    ) -> (r: OperationResult<String>)
        requires
            old(self).handler_inv(),
        ensures
            final(self).handler_inv(),
            Self::handler_frame(*old(self), *final(self)),
            Self::deferred_post(
                *old(self),
                *final(self),
                parent_id@,
                timestamp,
                dirent_version,
                content_version,
                ModifyOperationContentView::CreateDirectoryOperation(operation@),
                id_of(r),
            ),
    ;

    fn deferred_remove_file(
        &mut self,
        id: &str,
        timestamp: Timespec,
        dirent_version: i64,
        content_version: i64,
        operation: &RemoveFileOperation,
    ) -> (r: OperationResult<()>)
        requires
            old(self).handler_inv(),
        ensures
            final(self).handler_inv(),
            Self::handler_frame(*old(self), *final(self)),
            Self::deferred_post(
                *old(self),
                *final(self),
                id@,
                timestamp,
                dirent_version,
                content_version,
                ModifyOperationContentView::RemoveFileOperation(*operation),
                with_id(r, id@),
            ),
    ;

    fn deferred_remove_directory(
        &mut self,
        id: &str,
        timestamp: Timespec,
        dirent_version: i64,
        content_version: i64,
        operation: &RemoveDirectoryOperation,
    ) -> (r: OperationResult<()>)
        requires
            old(self).handler_inv(),
        ensures
            final(self).handler_inv(),
            Self::handler_frame(*old(self), *final(self)),
            Self::deferred_post(
                *old(self),
                *final(self),
                id@,
                timestamp,
                dirent_version,
                content_version,
                ModifyOperationContentView::RemoveDirectoryOperation(*operation),
                with_id(r, id@),
            ),
    ;

    fn deferred_rename(
        &mut self,
        id: &str,
        timestamp: Timespec,
        dirent_version: i64,
        content_version: i64,
        operation: &RenameOperation,
    ) -> (r: OperationResult<()>)
        requires
            old(self).handler_inv(),
        ensures
            final(self).handler_inv(),
            Self::handler_frame(*old(self), *final(self)),
            Self::deferred_post(
                *old(self),
                *final(self),
                id@,
                timestamp,
                dirent_version,
                content_version,
                ModifyOperationContentView::RenameOperation(operation@),
                with_id(r, id@),
            ),
    ;

    fn deferred_set_attributes(
        &mut self,
        id: &str,
        timestamp: Timespec,
        dirent_version: i64,
        content_version: i64,
        operation: &SetAttributesOperation,
    ) -> (r: OperationResult<()>)
        requires
            old(self).handler_inv(),
        ensures
            final(self).handler_inv(),
            Self::handler_frame(*old(self), *final(self)),
            Self::deferred_post(
                *old(self),
                *final(self),
                id@,
                timestamp,
                dirent_version,
                content_version,
                ModifyOperationContentView::SetAttributesOperation(*operation),
                with_id(r, id@),
            ),
    ;

    fn deferred_write(
        &mut self,
        id: &str,
        timestamp: Timespec,
        dirent_version: i64,
        content_version: i64,
        operation: &WriteOperation,
    ) -> (r: OperationResult<()>)
        requires
            old(self).handler_inv(),
        ensures
            final(self).handler_inv(),
            Self::handler_frame(*old(self), *final(self)),
            Self::deferred_post(
                *old(self),
                *final(self),
                id@,
                timestamp,
                dirent_version,
                content_version,
                ModifyOperationContentView::WriteOperation(operation@),
                with_id(r, id@),
            ),
    ;
}

/// What dispatching an operation guarantees: the handler moved by the
/// matching transition, and a non-create operation resolves to its own
/// id.
pub open spec fn applier_post<T: OperationHandler>(
    pre: T,
    post: T,
    op: crate::modify_op::ModifyOperationView,
    deferred: bool,
    r: OperationResult<String>,
) -> bool {
    &&& if deferred {
        T::deferred_post(
            pre,
            post,
            op.id,
            op.timestamp,
            op.dirent_version,
            op.content_version,
            op.operation,
            id_of(r),
        )
    } else {
        T::perform_post(pre, post, op.id, op.timestamp, op.operation, id_of(r))
    }
    &&& (r is Ok && !is_create_content(op.operation)) ==> r->Ok_0@ == op.id
}

/// Dispatches operations to a handler.
pub struct OperationApplier;

impl OperationApplier {
    /// Applies an operation immediately: versions are not consulted.
    pub fn apply_operation<T: OperationHandler>(
        handler: &mut T,
        operation: &ModifyOperation,
    ) -> (r: OperationResult<String>)
        requires
            old(handler).handler_inv(),
        ensures
            final(handler).handler_inv(),
            T::handler_frame(*old(handler), *final(handler)),
            applier_post(*old(handler), *final(handler), operation@, false, r),
    {
        Self::apply_operation_internal(handler, operation, false)
    }

    /// Applies an operation in deferred mode: the handler may consult
    /// the observed versions for conflict detection.
    pub fn apply_operation_deferred<T: OperationHandler>(
        handler: &mut T,
        operation: &ModifyOperation,
    ) -> (r: OperationResult<String>)
        requires
            old(handler).handler_inv(),
        ensures
            final(handler).handler_inv(),
            T::handler_frame(*old(handler), *final(handler)),
            applier_post(*old(handler), *final(handler), operation@, true, r),
    {
        Self::apply_operation_internal(handler, operation, true)
    }

    fn apply_operation_internal<T: OperationHandler>(
        handler: &mut T,
        operation: &ModifyOperation,
        deferred: bool,
    ) -> (r: OperationResult<String>)
        requires
            old(handler).handler_inv(),
        ensures
            final(handler).handler_inv(),
            T::handler_frame(*old(handler), *final(handler)),
            applier_post(*old(handler), *final(handler), operation@, deferred, r),
    {
        let id: &str = operation.id.as_str();
        let timestamp = operation.timestamp;
        let dirent_version = operation.dirent_version;
        let content_version = operation.content_version;
        match &operation.operation {
            ModifyOperationContent::CreateFileOperation(op) => {
                if deferred {
                    handler.deferred_create_file(
                        id,
                        timestamp,
                        dirent_version,
                        content_version,
                        op,
                    )
                } else {
                    handler.perform_create_file(id, timestamp, op)
                }
            },
            ModifyOperationContent::CreateSymlinkOperation(op) => {
                if deferred {
                    handler.deferred_create_symlink(
                        id,
                        timestamp,
                        dirent_version,
                        content_version,
                        op,
                    )
                } else {
                    handler.perform_create_symlink(id, timestamp, op)
                }
            },
            ModifyOperationContent::CreateDirectoryOperation(op) => {
                if deferred {
                    handler.deferred_create_directory(
                        id,
                        timestamp,
                        dirent_version,
                        content_version,
                        op,
                    )
                } else {
                    handler.perform_create_directory(id, timestamp, op)
                }
            },
            ModifyOperationContent::RemoveFileOperation(op) => {
                let r = if deferred {
                    handler.deferred_remove_file(
                        id,
                        timestamp,
                        dirent_version,
                        content_version,
                        op,
                    )
                } else {
                    handler.perform_remove_file(id, timestamp, op)
                };
                match r {
                    Ok(_) => Ok(crate::clone_string(&operation.id)),
                    Err(e) => Err(e),
                }
            },
            ModifyOperationContent::RemoveDirectoryOperation(op) => {
                let r = if deferred {
                    handler.deferred_remove_directory(
                        id,
                        timestamp,
                        dirent_version,
                        content_version,
                        op,
                    )
                } else {
                    handler.perform_remove_directory(id, timestamp, op)
                };
                match r {
                    Ok(_) => Ok(crate::clone_string(&operation.id)),
                    Err(e) => Err(e),
                }
            },
            ModifyOperationContent::RenameOperation(op) => {
                let r = if deferred {
                    handler.deferred_rename(id, timestamp, dirent_version, content_version, op)
                } else {
                    handler.perform_rename(id, timestamp, op)
                };
                match r {
                    Ok(_) => Ok(crate::clone_string(&operation.id)),
                    Err(e) => Err(e),
                }
            },
            ModifyOperationContent::SetAttributesOperation(op) => {
                let r = if deferred {
                    handler.deferred_set_attributes(
                        id,
                        timestamp,
                        dirent_version,
                        content_version,
                        op,
                    )
                } else {
                    handler.perform_set_attributes(id, timestamp, op)
                };
                match r {
                    Ok(_) => Ok(crate::clone_string(&operation.id)),
                    Err(e) => Err(e),
                }
            },
            ModifyOperationContent::WriteOperation(op) => {
                let r = if deferred {
                    handler.deferred_write(id, timestamp, dirent_version, content_version, op)
                } else {
                    handler.perform_write(id, timestamp, op)
                };
                match r {
                    Ok(_) => Ok(crate::clone_string(&operation.id)),
                    Err(e) => Err(e),
                }
            },
        }
    }
}

} // verus!
