use tagfs::filesystem::libc_wrappers::{S_IFDIR, S_IFREG};
use tagfs::filesystem::{FileStat, LibcWrapper};
use tagfs::tagger::{
    datetime_display, meta_reply, metadata_tags, mime_reply, mime_tags_from, Error,
    MetadataTagger, MimeExtractor, MimeTagger, Tag, Tagger,
};
use tagfs::OsError;

/// A fake shim for the metadata tagger: a regular file named `test_file`,
/// a directory named `src`, nothing else.
struct StatShim {}

impl LibcWrapper for StatShim {
    fn new() -> Self {
        StatShim {}
    }

    fn lstat(&self, path: &str) -> Result<FileStat, OsError> {
        let mode = if path == "test_file" {
            S_IFREG | 0o644
        } else if path == "src" {
            S_IFDIR | 0o755
        } else {
            return Err(OsError { raw: Some(tagfs::ENOENT) });
        };
        Ok(FileStat {
            st_mode: mode,
            st_nlink: 1,
            st_uid: 0,
            st_gid: 0,
            st_rdev: 0,
            st_size: 1234,
            st_blocks: 8,
            st_atime: 0,
            st_atime_nsec: 0,
            st_mtime: 24 * 60 * 60,
            st_mtime_nsec: 0,
            st_ctime: 0,
            st_ctime_nsec: 0,
        })
    }

    fn fstat(&self, _fh: u64) -> Result<FileStat, OsError> {
        Err(OsError { raw: None })
    }

    fn open(&self, _path: &str, _flags: i32) -> Result<i32, OsError> {
        Err(OsError { raw: None })
    }

    fn close(&self, _fd: i32) -> Result<(), OsError> {
        Err(OsError { raw: None })
    }

    fn read(&self, _fd: i32, _offset: i64, _count: u32) -> Result<Vec<u8>, OsError> {
        Err(OsError { raw: None })
    }

    fn unlink(&self, _path: &str) -> Result<(), OsError> {
        Err(OsError { raw: None })
    }
}

fn contains_tag(tags: &Vec<Tag>, t: &Tag) -> bool {
    tags.iter().any(|x| x == t)
}

#[test]
fn tags() {
    // A regular file of 1234 bytes, modified at midnight on 02/Jan/1970.
    let tagger = MetadataTagger::<StatShim>::new();
    let tags = tagger.tag("test_file").unwrap();
    assert_eq!(2, tags.len());
    assert!(contains_tag(&tags, &Tag::new("size", true, "1234")));
    assert!(contains_tag(&tags, &Tag::new("modified", true, "1970-01-02 00:00:00")));
}

#[test]
fn tags_dir() {
    let tagger = MetadataTagger::<StatShim>::new();
    let tags = tagger.tag("src").unwrap();
    assert!(tags.is_empty());
}

#[test]
fn tags_missing() {
    let tagger = MetadataTagger::<StatShim>::new();
    let tags = tagger.tag("no_such_file");
    assert!(tags.is_err_and(|e| e == Error::Illegible));
}

#[test]
fn metadata_tags_exact() {
    let tags = metadata_tags(1234, 86400);
    assert_eq!(2, tags.len());
    assert_eq!(Tag::new("size", true, "1234"), tags[0]);
    assert_eq!(Tag::new("modified", true, "1970-01-02 00:00:00"), tags[1]);
}

#[test]
fn metadata_tags_epoch() {
    let tags = metadata_tags(0, 0);
    assert_eq!(Tag::new("size", true, "0"), tags[0]);
    assert_eq!(Tag::new("modified", true, "1970-01-01 00:00:00"), tags[1]);
}

#[test]
fn metadata_tags_modern_date() {
    // 2000-03-01 01:02:03 UTC
    let tags = metadata_tags(5, 951872523);
    assert_eq!(Tag::new("modified", true, "2000-03-01 01:02:03"), tags[1]);
}

fn some_stat(mode: u32) -> FileStat {
    FileStat {
        st_mode: mode,
        st_nlink: 1,
        st_uid: 0,
        st_gid: 0,
        st_rdev: 0,
        st_size: 1234,
        st_blocks: 8,
        st_atime: 0,
        st_atime_nsec: 0,
        st_mtime: 86400,
        st_mtime_nsec: 0,
        st_ctime: 0,
        st_ctime_nsec: 0,
    }
}

#[test]
fn meta_reply_failed_stat_is_illegible() {
    let r = meta_reply(Err(OsError { raw: Some(tagfs::ENOENT) }));
    assert!(r.is_err_and(|e| e == Error::Illegible));
}

#[test]
fn meta_reply_non_regular_is_empty_success() {
    let r = meta_reply(Ok(some_stat(S_IFDIR | 0o755))).unwrap();
    assert!(r.is_empty());
}

#[test]
fn meta_reply_regular_file_tags() {
    let r = meta_reply(Ok(some_stat(S_IFREG | 0o644))).unwrap();
    assert_eq!(2, r.len());
    assert_eq!(Tag::new("size", true, "1234"), r[0]);
    assert_eq!(Tag::new("modified", true, "1970-01-02 00:00:00"), r[1]);
    assert!(r[0].is_singleton());
    assert!(r[1].is_singleton());
}

#[test]
fn datetime_display_exact_values() {
    assert_eq!(Some("1970-01-02 00:00:00".to_owned()), datetime_display(86400));
    assert_eq!(Some("1970-01-01 00:00:00".to_owned()), datetime_display(0));
    assert_eq!(Some("1969-12-31 23:59:59".to_owned()), datetime_display(-1));
    assert_eq!(Some("2000-03-01 01:02:03".to_owned()), datetime_display(951872523));
}

#[test]
fn mime_reply_maps_option() {
    let ok = mime_reply(Some(String::from("text/x-c"))).unwrap();
    assert_eq!(vec![Tag::new("mime", true, "text|x-c")], ok);
    let err = mime_reply(None);
    assert!(err.is_err_and(|e| e == Error::Illegible));
}

#[derive(Debug)]
struct OkExtractor {}

impl MimeExtractor for OkExtractor {
    fn new() -> Self {
        OkExtractor {}
    }

    fn file(&self, _filename: &str) -> Option<String> {
        Some(String::from("Ok"))
    }
}

#[derive(Debug)]
struct NoneExtractor {}

impl MimeExtractor for NoneExtractor {
    fn new() -> Self {
        NoneExtractor {}
    }

    fn file(&self, _filename: &str) -> Option<String> {
        None
    }
}

#[derive(Debug)]
struct CExtractor {}

impl MimeExtractor for CExtractor {
    fn new() -> Self {
        CExtractor {}
    }

    fn file(&self, _filename: &str) -> Option<String> {
        Some(String::from("text/x-c"))
    }
}

#[test]
fn mime_extraction_success() {
    let t = MimeTagger::<OkExtractor>::new();
    assert!(t.tag("bob").is_ok_and(|v| {
        v.len() == 1 && v[0].as_os_str() == "mime".to_owned() + tagfs::tagger::TAG_SEPARATOR + "Ok"
    }));
}

#[test]
fn mime_extraction_failed() {
    let t = MimeTagger::<NoneExtractor>::new();
    assert!(t.tag("bob").is_err_and(|e| e == Error::Illegible));
}

#[test]
fn mime_slash_becomes_pipe() {
    // The extractor answers "text/x-c"; the tag set is one singleton
    // mime tag whose value has the slash replaced.
    let t = MimeTagger::<CExtractor>::new();
    let tags = t.tag("main.c").unwrap();
    assert_eq!(1, tags.len());
    assert_eq!(Tag::new("mime", true, "text|x-c"), tags[0]);
    assert!(tags[0].is_singleton());
}

#[test]
fn mime_tags_from_plain_value() {
    let v = mime_tags_from(&String::from("application/pdf"));
    assert_eq!(1, v.len());
    assert_eq!("mime:application|pdf", v[0].as_os_str());
    assert!(v[0].is_singleton());
}
