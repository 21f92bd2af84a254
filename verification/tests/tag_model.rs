use tagfs::tagger::{merge_tag_results, Error, Tag, TAG_SEPARATOR};

#[test]
fn as_os_str_no_label() {
    let tag = Tag::from("test");
    assert_eq!("test", tag.as_os_str());
}

#[test]
fn as_os_str() {
    let tag = Tag::new("label", true, "value");
    let expected = format!("{}{}{}", "label", TAG_SEPARATOR, "value");
    assert_eq!(expected.as_str(), tag.as_os_str());
}

#[test]
fn tag_accessors() {
    let labelled = Tag::new("size", true, "1234");
    assert!(labelled.is_singleton());
    assert_eq!("size", labelled.label().as_str());
    assert_eq!("size:1234", labelled.as_os_str());

    let plain = Tag::from("holiday");
    assert!(!plain.is_singleton());
    assert_eq!("holiday", plain.as_os_str());
}

#[test]
fn tags_with_same_label_and_different_values_coexist() {
    let a = Tag::new("mime", true, "text|plain");
    let b = Tag::new("mime", true, "text|csv");
    assert_ne!(a, b);
    assert!(!a.key_eq(&b));
    assert!(a.key_eq(&a.clone()));
}

#[test]
fn equality_is_over_label_and_value_alone() {
    // The singleton flag is a property of the label, not of the key.
    let a = Tag::new("k", true, "v");
    let b = Tag::new("k", false, "v");
    assert_eq!(a, b);
    assert!(a.key_eq(&b));
    // Where both flags arrive for one key, the first occurrence decides.
    let merged = merge_tag_results(vec![Ok(vec![a]), Ok(vec![b])]);
    assert_eq!(1, merged.len());
    assert!(merged[0].is_singleton());
}

#[test]
fn merge_keeps_first_occurrence_and_drops_illegible() {
    let first = vec![Tag::new("mime", true, "text|plain"), Tag::from("alpha")];
    let second = vec![Tag::new("mime", true, "text|plain"), Tag::from("beta")];
    let merged = merge_tag_results(vec![Ok(first), Err(Error::Illegible), Ok(second)]);
    assert_eq!(
        vec![
            Tag::new("mime", true, "text|plain"),
            Tag::from("alpha"),
            Tag::from("beta"),
        ],
        merged
    );
}

#[test]
fn merge_of_failures_is_empty() {
    let merged = merge_tag_results(vec![Err(Error::Illegible), Err(Error::Illegible)]);
    assert!(merged.is_empty());
}
