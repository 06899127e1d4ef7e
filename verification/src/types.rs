//! Core data model: producible file types, generator configuration, snapshot
//! records and error taxonomy.

use vstd::prelude::*;
use crate::paths::path_view;

verus! {

/// The closed set of producible entry kinds.
#[derive(Debug, PartialEq, Eq, Clone, Copy, Structural)]
pub enum FileType {
    Regular,
    Directory,
    Fifo,
    Socket,
    BlockDevice,
    CharDevice,
    Symlink,
    HardLink,
}

/// Why a generation call failed.
///
/// `ExhaustedInput` reports that the decision source could not serve a draw;
/// `FilesystemOperationFailed` reports a planned entry that no filesystem
/// operation could create (a new entry path passing through a previously
/// created non-directory).
#[derive(Debug, PartialEq, Eq, Clone, Copy, Structural)]
pub enum GenError {
    ExhaustedInput,
    FilesystemOperationFailed,
}

/// The default set of producible kinds: every variant, in declaration order.
pub open spec fn all_file_types_seq() -> Seq<FileType> {
    seq![
        FileType::Regular,
        FileType::Directory,
        FileType::Fifo,
        FileType::Socket,
        FileType::BlockDevice,
        FileType::CharDevice,
        FileType::Symlink,
        FileType::HardLink,
    ]
}

/// Every producible kind, in declaration order.
pub fn all_file_types() -> (v: Vec<FileType>)
    ensures
        v@ == all_file_types_seq(),
{
    let mut v: Vec<FileType> = Vec::new();
    v.push(FileType::Regular);
    v.push(FileType::Directory);
    v.push(FileType::Fifo);
    v.push(FileType::Socket);
    v.push(FileType::BlockDevice);
    v.push(FileType::CharDevice);
    v.push(FileType::Symlink);
    v.push(FileType::HardLink);
    proof {
        assert(v@ =~= all_file_types_seq());
    }
    v
}

/// Canonical per-entry metadata of a snapshot record. The inode number is the
/// remapped synthetic one; `rdev` is meaningful only for device-special files.
#[derive(PartialEq, Eq, Clone, Copy, Debug, Structural)]
pub struct Metadata {
    pub dev: u64,
    pub ino: u64,
    pub mode: u32,
    pub uid: u32,
    pub gid: u32,
    pub nlink: u32,
    pub rdev: u64,
    pub mtime: u64,
    pub file_size: u64,
}

/// One snapshot record: a path relative to the snapshot root, given as byte
/// components, the entry's metadata, and its content bytes (file contents for
/// regular files, the raw target path for symlinks, empty otherwise).
#[derive(Debug, Clone, PartialEq, Eq)]
pub struct FileInfo {
    pub path: Vec<Vec<u8>>,
    pub metadata: Metadata,
    pub contents: Vec<u8>,
}

/// Mathematical view of a snapshot record.
#[verifier::ext_equal]
pub struct FileInfoV {
    pub path: Seq<Seq<u8>>,
    pub metadata: Metadata,
    pub contents: Seq<u8>,
}

impl View for FileInfo {
    type V = FileInfoV;

    open spec fn view(&self) -> FileInfoV {
        FileInfoV { path: path_view(self.path@), metadata: self.metadata, contents: self.contents@ }
    }
}

/// View of a record vector.
pub open spec fn records_view(s: Seq<FileInfo>) -> Seq<FileInfoV> {
    s.map_values(|r: FileInfo| r@)
}

/// Configuration of the tree generator. Immutable once generation starts.
pub struct DirBuilder {
    pub printable_names: bool,
    pub file_types: Vec<FileType>,
}

impl DirBuilder {
    /// Create a new directory builder with the default parameters: arbitrary
    /// byte names, and every producible file type enabled.
    pub fn new() -> (r: Self)
        ensures
            r.printable_names == false,
            r.file_types@ == all_file_types_seq(),
    {
        DirBuilder { printable_names: false, file_types: all_file_types() }
    }

    /// Generate entries with printable names, i.e. names consisting only of
    /// lowercase ASCII letters. Useful to test CLI applications.
    pub fn printable_names(self, value: bool) -> (r: Self)
        ensures
            r.printable_names == value,
            r.file_types@ == self.file_types@,
    {
        DirBuilder { printable_names: value, file_types: self.file_types }
    }

    /// Which file types to generate? By default any Unix file type can be
    /// generated.
    pub fn file_types(self, file_types: Vec<FileType>) -> (r: Self)
        ensures
            r.printable_names == self.printable_names,
            r.file_types@ == file_types@,
    {
        DirBuilder { printable_names: self.printable_names, file_types }
    }
}

impl Default for DirBuilder {
    fn default() -> (r: Self)
        ensures
            r.printable_names == false,
            r.file_types@ == all_file_types_seq(),
    {
        DirBuilder::new()
    }
}

} // verus!
