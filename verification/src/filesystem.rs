//! The filesystem half: the syscall shim boundary, the tag index, and the
//! adapter that answers kernel requests from the index.

pub mod libc_wrappers;
pub mod tagfs;

pub use libc_wrappers::{FileStat, FileType, LibcWrapper, mode_to_filetype};
pub use tagfs::{
    ATTR_TTL_SECS, DirEntry, Entry, FileAttr, LookupResult, TagEntry, TagFS, get_children,
};
