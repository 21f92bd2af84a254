use std::cell::{Cell, RefCell};

use tagfs::filesystem::libc_wrappers::S_IFREG;
use tagfs::filesystem::{DirEntry, FileStat, FileType, LibcWrapper, TagFS};
use tagfs::tagger::Tag;
use tagfs::{OsError, EIO, ENOENT, EPERM};

fn reg_stat(size: i64, mtime: i64) -> FileStat {
    FileStat {
        st_mode: S_IFREG | 0o644,
        st_nlink: 1,
        st_uid: 1000,
        st_gid: 100,
        st_rdev: 0,
        st_size: size,
        st_blocks: 8,
        st_atime: 10,
        st_atime_nsec: 1,
        st_mtime: mtime,
        st_mtime_nsec: 2,
        st_ctime: 30,
        st_ctime_nsec: 3,
    }
}

/// A fake shim that records unlink calls and answers by path, as the tests
/// configure through its cells after construction.
struct FakeShim {
    unlink_calls: Cell<u32>,
    unlink_errno: Cell<Option<i32>>,
    unlinked: RefCell<Vec<String>>,
    gone: RefCell<Vec<String>>,
}

impl LibcWrapper for FakeShim {
    fn new() -> Self {
        FakeShim {
            unlink_calls: Cell::new(0),
            unlink_errno: Cell::new(None),
            unlinked: RefCell::new(Vec::new()),
            gone: RefCell::new(Vec::new()),
        }
    }

    fn lstat(&self, _path: &str) -> Result<FileStat, OsError> {
        Ok(reg_stat(1234, 86400))
    }

    fn fstat(&self, _fh: u64) -> Result<FileStat, OsError> {
        Ok(reg_stat(1234, 86400))
    }

    fn open(&self, path: &str, _flags: i32) -> Result<i32, OsError> {
        if self.gone.borrow().iter().any(|p| p == path) {
            Err(OsError { raw: Some(ENOENT) })
        } else {
            Ok(7)
        }
    }

    fn close(&self, _fd: i32) -> Result<(), OsError> {
        Ok(())
    }

    fn read(&self, _fd: i32, _offset: i64, count: u32) -> Result<Vec<u8>, OsError> {
        Ok(vec![0; count as usize])
    }

    fn unlink(&self, path: &str) -> Result<(), OsError> {
        self.unlink_calls.set(self.unlink_calls.get() + 1);
        self.unlinked.borrow_mut().push(path.to_owned());
        match self.unlink_errno.get() {
            Some(e) => Err(OsError { raw: Some(e) }),
            None => {
                self.gone.borrow_mut().push(path.to_owned());
                Ok(())
            },
        }
    }
}

fn present_fs() -> TagFS<FakeShim> {
    let mut fs = TagFS::<FakeShim>::new();
    fs.add_file("/fake/source/present.txt", vec![Tag::from("tag")]);
    fs
}

#[test]
fn unlink_present_file() {
    let fs = present_fs();
    let r = fs.unlink("/tag", "present.txt");
    assert!(r.is_ok());
    assert_eq!(1, fs.libc_wrapper.unlink_calls.get());
    assert_eq!(
        vec!["/fake/source/present.txt".to_owned()],
        fs.libc_wrapper.unlinked.borrow().clone()
    );
}

#[test]
fn unlink_missing_file() {
    let fs = present_fs();
    let r = fs.unlink("/tag", "missing.txt");
    assert!(r.is_err());
    assert_eq!(ENOENT, r.unwrap_err());
    assert_eq!(0, fs.libc_wrapper.unlink_calls.get());
}

#[test]
fn unlink_forbidden_file() {
    let fs = present_fs();
    fs.libc_wrapper.unlink_errno.set(Some(EPERM));
    let r = fs.unlink("/tag", "present.txt");
    assert!(r.is_err());
    assert_eq!(EPERM, r.unwrap_err());
    let r = fs.unlink("/tag", "missing.txt");
    assert!(r.is_err());
    assert_eq!(ENOENT, r.unwrap_err());
    assert_eq!(1, fs.libc_wrapper.unlink_calls.get());
}

#[test]
fn open_after_unlink_is_enoent() {
    let fs = present_fs();
    let before = fs.open("/tag/present.txt", 0);
    assert!(before.is_ok());
    assert!(fs.unlink("/tag", "present.txt").is_ok());
    // The index still lists the basename, but the passthrough open now
    // reports the underlying error verbatim.
    let after = fs.open("/tag/present.txt", 0);
    assert_eq!(ENOENT, after.unwrap_err());
}

#[test]
fn open_returns_flags_and_handle() {
    let fs = present_fs();
    let r = fs.open("/tag/present.txt", 0o100);
    assert_eq!(Ok((7, 0o100)), r);
    let dir = fs.open("/tag", 0);
    assert_eq!(ENOENT, dir.unwrap_err());
}

#[test]
fn getattr_directory_is_synthetic() {
    let fs = present_fs();
    let a = fs.getattr("/tag", None).unwrap();
    assert_eq!(FileType::Directory, a.kind);
    assert_eq!(0o755, a.perm);
    assert_eq!(1, a.nlink);
    assert_eq!(0, a.size);
    assert_eq!(0, a.mtime_secs);
    assert_eq!(0, a.uid);
    assert_eq!(0, a.gid);
}

#[test]
fn getattr_missing_is_enoent() {
    let fs = present_fs();
    assert_eq!(ENOENT, fs.getattr("/nosuch", None).unwrap_err());
}

#[test]
fn getattr_handle_and_path_agree() {
    let fs = present_fs();
    let by_path = fs.getattr("/tag/present.txt", None).unwrap();
    let by_handle = fs.getattr("/tag/present.txt", Some(7)).unwrap();
    assert_eq!(by_path.size, by_handle.size);
    assert_eq!(by_path.nlink, by_handle.nlink);
    assert_eq!(by_path.uid, by_handle.uid);
    assert_eq!(by_path.gid, by_handle.gid);
    assert_eq!(by_path.atime_secs, by_handle.atime_secs);
    assert_eq!(by_path.mtime_secs, by_handle.mtime_secs);
    assert_eq!(by_path.ctime_secs, by_handle.ctime_secs);
}

#[test]
fn getattr_file_converts_stat() {
    let fs = present_fs();
    let a = fs.getattr("/tag/present.txt", None).unwrap();
    assert_eq!(FileType::RegularFile, a.kind);
    assert_eq!(0o644, a.perm);
    assert_eq!(1234, a.size);
    assert_eq!(86400, a.mtime_secs);
    assert_eq!(1000, a.uid);
    assert_eq!(100, a.gid);
}

/// A shim whose stat reports a mode with an unknown file kind.
struct BadKindShim {}

impl LibcWrapper for BadKindShim {
    fn new() -> Self {
        BadKindShim {}
    }

    fn lstat(&self, _path: &str) -> Result<FileStat, OsError> {
        let mut st = reg_stat(1, 1);
        st.st_mode = 0o644;
        Ok(st)
    }

    fn fstat(&self, _fh: u64) -> Result<FileStat, OsError> {
        let mut st = reg_stat(1, 1);
        st.st_mode = 0o644;
        Ok(st)
    }

    fn open(&self, _path: &str, _flags: i32) -> Result<i32, OsError> {
        Err(OsError { raw: None })
    }

    fn close(&self, _fd: i32) -> Result<(), OsError> {
        Err(OsError { raw: None })
    }

    fn read(&self, _fd: i32, _offset: i64, _count: u32) -> Result<Vec<u8>, OsError> {
        Err(OsError { raw: None })
    }

    fn unlink(&self, _path: &str) -> Result<(), OsError> {
        Err(OsError { raw: None })
    }
}

#[test]
fn getattr_unknown_kind_is_eio() {
    let fs = TagFS::<BadKindShim>::new();
    assert_eq!(EIO, fs.getattr("ignored", Some(3)).unwrap_err());
}

#[test]
fn missing_raw_errno_becomes_enoent() {
    let mut fs = TagFS::<BadKindShim>::new();
    fs.add_file("/src/f.txt", vec![Tag::from("t")]);
    assert_eq!(ENOENT, fs.unlink("/t", "f.txt").unwrap_err());
    assert_eq!(ENOENT, fs.release("/t/f.txt", 3, 0, 0, false).unwrap_err());
    assert_eq!(ENOENT, fs.read("/t/f.txt", 3, 0, 16).unwrap_err());
}

#[test]
fn opendir_and_readdir() {
    let fs = present_fs();
    assert_eq!(Ok((0, 0)), fs.opendir("/tag", 0));
    assert_eq!(Ok((0, 0)), fs.opendir("/", 0));
    assert_eq!(ENOENT, fs.opendir("/nosuch", 0).unwrap_err());

    let entries: Vec<DirEntry> = fs.readdir("/tag", 0).unwrap();
    assert_eq!(3, entries.len());
    assert_eq!(".", entries[0].name);
    assert_eq!(FileType::Directory, entries[0].kind);
    assert_eq!("..", entries[1].name);
    assert_eq!(FileType::Directory, entries[1].kind);
    assert_eq!("present.txt", entries[2].name);
    assert_eq!(FileType::RegularFile, entries[2].kind);
}

#[test]
fn check_wf_accepts_built_index() {
    let fs = present_fs();
    assert!(fs.check_wf());
    let tag = Tag::new("size", true, "1234");
    assert!(tag.check_wf());
}

#[test]
fn check_wf_rejects_hand_assembled_faults() {
    let bad_tag = Tag { label: None, value: "a".to_owned(), display: "b".to_owned() };
    assert!(!bad_tag.check_wf());

    let mut fs = present_fs();
    fs.tags.push(tagfs::filesystem::TagEntry::new(bad_tag, vec![]));
    assert!(!fs.check_wf());

    let mut fs2 = present_fs();
    // An id beyond the file list breaks the invariant too.
    fs2.tags.push(tagfs::filesystem::TagEntry::new(Tag::from("loose"), vec![9]));
    assert!(!fs2.check_wf());
}

#[test]
fn parent_reference_matches_nothing() {
    // The kernel resolves `..` before the filesystem sees a path; asked
    // directly, it is an unknown name.
    let fs = present_fs();
    assert_eq!(ENOENT, fs.opendir("/tag/..", 0).unwrap_err());
    assert_eq!(ENOENT, fs.getattr("/tag/..", None).unwrap_err());
    assert_eq!(ENOENT, fs.open("/tag/../present.txt", 0).unwrap_err());
}

#[test]
fn release_and_read_pass_through() {
    let fs = present_fs();
    assert!(fs.release("/tag/present.txt", 7, 0, 0, false).is_ok());
    let bytes = fs.read("/tag/present.txt", 7, 0, 16).unwrap();
    assert_eq!(16, bytes.len());
}
