//! Directory entities: the unit of filesystem metadata.

use vstd::prelude::*;

use crate::timespec::Timespec;

verus! {

/// Permission bits of an entity.
pub type FileMode = u16;

/// Device number of a special file.
pub type FileDev = u32;

/// The id of the root directory entity.
pub const ROOT_ID: &'static str = "root";

/// The kind of a directory entity.
#[derive(Clone, Copy, Debug, PartialEq, Eq, Structural)]
pub enum FileType {
    NamedPipe,
    CharDevice,
    BlockDevice,
    Directory,
    RegularFile,
    Symlink,
    Socket,
}

/// The numeric tag of a file type, as stored and sent on the wire.
pub open spec fn spec_file_type_to_u8(t: FileType) -> u8 {
    match t {
        FileType::NamedPipe => 0,
        FileType::CharDevice => 1,
        FileType::BlockDevice => 2,
        FileType::Directory => 3,
        FileType::RegularFile => 4,
        FileType::Symlink => 5,
        FileType::Socket => 6,
    }
}

/// Numeric tag of a file type.
pub fn file_type_to_u8(t: FileType) -> (r: u8)
    ensures
        r == spec_file_type_to_u8(t),
{
    match t {
        FileType::NamedPipe => 0,
        FileType::CharDevice => 1,
        FileType::BlockDevice => 2,
        FileType::Directory => 3,
        FileType::RegularFile => 4,
        FileType::Symlink => 5,
        FileType::Socket => 6,
    }
}

/// File type for a numeric tag; `None` for a tag no file type carries.
pub fn file_type_from_u8(n: u8) -> (r: Option<FileType>)
    ensures
        match r {
            Some(t) => spec_file_type_to_u8(t) == n,
            None => forall|t: FileType| spec_file_type_to_u8(t) != n,
        },
{
    if n == 0 {
        Some(FileType::NamedPipe)
    } else if n == 1 {
        Some(FileType::CharDevice)
    } else if n == 2 {
        Some(FileType::BlockDevice)
    } else if n == 3 {
        Some(FileType::Directory)
    } else if n == 4 {
        Some(FileType::RegularFile)
    } else if n == 5 {
        Some(FileType::Symlink)
    } else if n == 6 {
        Some(FileType::Socket)
    } else {
        None
    }
}

/// POSIX-shaped attributes of an entity.
#[derive(Clone, Copy, Debug, PartialEq, Eq, Structural)]
pub struct FileStat {
    pub file_type: FileType,
    pub mode: FileMode,
    pub dev: FileDev,
    pub nlink: u64,
    pub uid: u32,
    pub gid: u32,
    pub size: u64,
    pub blocks: u64,
    pub atim: Timespec,
    pub mtim: Timespec,
    pub ctim: Timespec,
}

impl FileStat {
    /// Whether the `size` field is meaningful: only regular files carry
    /// content whose length the stat records.
    pub fn has_size(&self) -> (r: bool)
        ensures
            r == (self.file_type == FileType::RegularFile),
    {
        match self.file_type {
            FileType::RegularFile => true,
            _ => false,
        }
    }
}

/// The mathematical value of a [`DirEntity`]: its strings as character
/// sequences, all else as in the entity.
pub struct DirEntityView {
    pub id: Seq<char>,
    pub parent: Seq<char>,
    pub name: Seq<char>,
    pub dirent_version: i64,
    pub content_version: i64,
    pub retrieved_version: i64,
    pub stat: FileStat,
}

/// A directory entity: one row of filesystem metadata.
///
/// `(parent, name)` locates the entity in the tree; `dirent_version` and
/// `content_version` grow monotonically with directory-level and content
/// changes respectively; `retrieved_version` (client only) is the
/// `content_version` at which the entity's content was last fetched.
#[derive(Clone, Debug)]
pub struct DirEntity {
    pub id: String,
    pub parent: String,
    pub name: String,
    pub dirent_version: i64,
    pub content_version: i64,
    pub retrieved_version: i64,
    pub stat: FileStat,
}

impl View for DirEntity {
    type V = DirEntityView;

    open spec fn view(&self) -> DirEntityView {
        DirEntityView {
            id: self.id@,
            parent: self.parent@,
            name: self.name@,
            dirent_version: self.dirent_version,
            content_version: self.content_version,
            retrieved_version: self.retrieved_version,
            stat: self.stat,
        }
    }
}

impl DirEntity {
    /// A copy of the entity with the same value.
    pub fn duplicate(&self) -> (r: DirEntity)
        ensures
            r@ == self@,
    {
        DirEntity {
            id: crate::clone_string(&self.id),
            parent: crate::clone_string(&self.parent),
            name: crate::clone_string(&self.name),
            dirent_version: self.dirent_version,
            content_version: self.content_version,
            retrieved_version: self.retrieved_version,
            stat: self.stat,
        }
    }

    /// Whether the entity's content has ever been fetched from the server.
    pub fn is_retrieved(&self) -> (r: bool)
        ensures
            r == (self.retrieved_version != 0),
    {
        self.retrieved_version != 0
    }

    /// Whether the cached content is as new as the entity's metadata.
    pub fn is_up_to_date(&self) -> (r: bool)
        ensures
            r == (self.retrieved_version == self.content_version),
    {
        self.retrieved_version == self.content_version
    }
}

} // verus!
