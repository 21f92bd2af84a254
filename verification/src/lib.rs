//! A tag-based virtual filesystem core.
//!
//! Files from a source tree are indexed by tags; each tag becomes a virtual
//! directory, nested tag directories mean set intersection, and the leaves
//! are the original files, passed through to the backing inodes.

mod errno;
pub mod filesystem;
mod strutil;
pub mod tagger;

pub use errno::{os_error_code, spec_os_error_code, OsError, EIO, ENOENT, EPERM};
pub use strutil::{basename, path_components, replace_char, u64_to_dec};
