use tagfs::{basename, os_error_code, path_components, replace_char, u64_to_dec};
use tagfs::{OsError, ENOENT, EPERM};

#[test]
fn decimal_rendering() {
    assert_eq!("0", u64_to_dec(0));
    assert_eq!("7", u64_to_dec(7));
    assert_eq!("1234", u64_to_dec(1234));
    assert_eq!("18446744073709551615", u64_to_dec(u64::MAX));
}

#[test]
fn basename_is_after_last_separator() {
    assert_eq!("file1.txt", basename("/fake/dir/where/file/exists/file1.txt"));
    assert_eq!("plain", basename("plain"));
    assert_eq!("c", basename("a/b/c"));
}

#[test]
fn components_drop_empty_and_current() {
    assert_eq!(vec!["tag2".to_owned(), "tag1".to_owned()], path_components("/tag2/tag1"));
    assert_eq!(vec!["a".to_owned(), "b".to_owned()], path_components("//a/./b/"));
    assert!(path_components("/").is_empty());
    assert!(path_components("").is_empty());
}

#[test]
fn replace_char_replaces_all() {
    assert_eq!("text|x|c", replace_char("text/x/c", '/', '|'));
    assert_eq!("nochange", replace_char("nochange", '/', '|'));
}

#[test]
fn errno_mapping_keeps_raw_value() {
    assert_eq!(EPERM, os_error_code(&OsError { raw: Some(EPERM) }));
    assert_eq!(13, os_error_code(&OsError { raw: Some(13) }));
    assert_eq!(ENOENT, os_error_code(&OsError { raw: None }));
}
