//! The syscall shim boundary: plain-value stat results, file kinds derived
//! from the mode word, and the capability trait the adapter calls through.

use vstd::prelude::*;

use crate::errno::OsError;

verus! {

/// The mask selecting the file-kind bits of a mode word.
pub const S_IFMT: u32 = 0o170000;

pub const S_IFDIR: u32 = 0o040000;

pub const S_IFREG: u32 = 0o100000;

pub const S_IFLNK: u32 = 0o120000;

pub const S_IFBLK: u32 = 0o060000;

pub const S_IFCHR: u32 = 0o020000;

pub const S_IFIFO: u32 = 0o010000;

pub const S_IFSOCK: u32 = 0o140000;

/// The kind of a directory entry or inode.
#[derive(Debug, Clone, Copy, PartialEq, Eq, Structural)]
pub enum FileType {
    Directory,
    RegularFile,
    Symlink,
    BlockDevice,
    CharDevice,
    NamedPipe,
    Socket,
}

/// The kind encoded in a mode word, or nothing for an unknown encoding.
/// An unknown kind is an invariant violation reported to the caller, never
/// silently mapped.
pub open spec fn spec_mode_to_filetype(mode: u32) -> Option<FileType> {
    if mode & S_IFMT == S_IFDIR {
        Some(FileType::Directory)
    } else if mode & S_IFMT == S_IFREG {
        Some(FileType::RegularFile)
    } else if mode & S_IFMT == S_IFLNK {
        Some(FileType::Symlink)
    } else if mode & S_IFMT == S_IFBLK {
        Some(FileType::BlockDevice)
    } else if mode & S_IFMT == S_IFCHR {
        Some(FileType::CharDevice)
    } else if mode & S_IFMT == S_IFIFO {
        Some(FileType::NamedPipe)
    } else if mode & S_IFMT == S_IFSOCK {
        Some(FileType::Socket)
    } else {
        None
    }
}

/// Decodes the file kind of a mode word.
pub fn mode_to_filetype(mode: u32) -> (r: Option<FileType>)
    ensures
        r == spec_mode_to_filetype(mode),
{
    let m = mode & S_IFMT;
    if m == S_IFDIR {
        Some(FileType::Directory)
    } else if m == S_IFREG {
        Some(FileType::RegularFile)
    } else if m == S_IFLNK {
        Some(FileType::Symlink)
    } else if m == S_IFBLK {
        Some(FileType::BlockDevice)
    } else if m == S_IFCHR {
        Some(FileType::CharDevice)
    } else if m == S_IFIFO {
        Some(FileType::NamedPipe)
    } else if m == S_IFSOCK {
        Some(FileType::Socket)
    } else {
        None
    }
}

/// A stat result, as plain values. Fields mirror the kernel's stat record.
#[derive(Debug, Clone, Copy, PartialEq, Eq, Structural)]
pub struct FileStat {
    pub st_mode: u32,
    pub st_nlink: u64,
    pub st_uid: u32,
    pub st_gid: u32,
    pub st_rdev: u64,
    pub st_size: i64,
    pub st_blocks: i64,
    pub st_atime: i64,
    pub st_atime_nsec: i64,
    pub st_mtime: i64,
    pub st_mtime_nsec: i64,
    pub st_ctime: i64,
    pub st_ctime_nsec: i64,
}

/// The syscalls the filesystem needs, as a capability. The adapter and the
/// metadata tagger only ever touch the real filesystem through a value of
/// this trait, so tests can substitute a fake. Nothing is assumed about the
/// outcomes: every caller states what holds whatever comes back.
pub trait LibcWrapper: Sized {
    fn new() -> Self;

    fn lstat(&self, path: &str) -> Result<FileStat, OsError>;

    fn fstat(&self, fh: u64) -> Result<FileStat, OsError>;

    fn open(&self, path: &str, flags: i32) -> Result<i32, OsError>;

    fn close(&self, fd: i32) -> Result<(), OsError>;

    fn read(&self, fd: i32, offset: i64, count: u32) -> Result<Vec<u8>, OsError>;

    fn unlink(&self, path: &str) -> Result<(), OsError>;
}

} // verus!
