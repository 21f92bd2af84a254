use tagfs::filesystem::{get_children, DirEntry, Entry, FileType, TagEntry};
use tagfs::tagger::{Tag, TAG_SEPARATOR};

fn has_entry(children: &Vec<DirEntry>, kind: FileType, name: &str) -> bool {
    children.iter().any(|c| c.kind == kind && c.name == name)
}

fn file1() -> Vec<Entry> {
    vec![Entry::new("/fake/dir/where/file/exists/file1.txt")]
}

#[test]
fn get_children_root() {
    let tags = vec![
        TagEntry::new(Tag::from("tag1"), vec![]),
        TagEntry::new(Tag::from("tag2"), vec![]),
        TagEntry::new(Tag::from("tag3"), vec![]),
    ];
    let files = file1();

    let children = get_children("/", &tags, &files);
    assert_eq!(3, children.len());
}

#[test]
fn get_children_tag2() {
    let tags = vec![
        TagEntry::new(Tag::from("tag1"), vec![]),
        TagEntry::new(Tag::from("tag2"), vec![]),
        TagEntry::new(Tag::from("tag3"), vec![]),
    ];
    let files = file1();

    let children = get_children("/tag2", &tags, &files);
    assert_eq!(2, children.len());
}

#[test]
fn get_children_tag2_tag1() {
    let tags = vec![
        TagEntry::new(Tag::from("tag1"), vec![]),
        TagEntry::new(Tag::from("tag2"), vec![]),
        TagEntry::new(Tag::from("tag3"), vec![]),
    ];
    let files = file1();

    let children = get_children("/tag2/tag1", &tags, &files);
    assert_eq!(1, children.len());
}

#[test]
fn get_children_singleton_root() {
    let tags = vec![
        TagEntry::new(Tag::new("singleton", true, "v1"), vec![]),
        TagEntry::new(Tag::new("singleton", true, "v2"), vec![]),
        TagEntry::new(Tag::from("tag1"), vec![]),
    ];
    let files = file1();

    let children = get_children("/", &tags, &files);
    // Root shows all tags, no files
    assert_eq!(3, children.len());
    assert!(has_entry(
        &children,
        FileType::Directory,
        &("singleton".to_owned() + TAG_SEPARATOR + "v1"),
    ));
    assert!(has_entry(
        &children,
        FileType::Directory,
        &("singleton".to_owned() + TAG_SEPARATOR + "v2"),
    ));
    assert!(has_entry(&children, FileType::Directory, "tag1"));
}

#[test]
fn get_children_singleton_child_file() {
    let tags = vec![
        TagEntry::new(Tag::new("singleton", true, "v1"), vec![0]),
        TagEntry::new(Tag::new("singleton", true, "v2"), vec![]),
        TagEntry::new(Tag::from("tag1"), vec![]),
    ];
    let files = file1();

    let path = "/singleton".to_owned() + TAG_SEPARATOR + "v1";
    let children = get_children(&path, &tags, &files);
    // Inner shows only non-singleton collisions, and related files
    assert_eq!(2, children.len());
    assert!(has_entry(&children, FileType::Directory, "tag1"));
    assert!(has_entry(&children, FileType::RegularFile, "file1.txt"));
}

#[test]
fn get_children_singleton_child_nofile() {
    let tags = vec![
        TagEntry::new(Tag::new("singleton", true, "v1"), vec![0]),
        TagEntry::new(Tag::new("singleton", true, "v2"), vec![]),
        TagEntry::new(Tag::from("tag1"), vec![]),
    ];
    let files = file1();

    let path = "/singleton".to_owned() + TAG_SEPARATOR + "v2";
    let children = get_children(&path, &tags, &files);
    // Inner shows only non-singleton collisions, and related files
    assert_eq!(1, children.len());
    assert!(has_entry(&children, FileType::Directory, "tag1"));
    assert!(!has_entry(&children, FileType::RegularFile, "file1.txt"));
}

#[test]
fn single_tag_listing_shows_file() {
    // File 0 tagged {tag2}: the listing shows the two other tags and the file.
    let tags = vec![
        TagEntry::new(Tag::from("tag1"), vec![]),
        TagEntry::new(Tag::from("tag2"), vec![0]),
        TagEntry::new(Tag::from("tag3"), vec![]),
    ];
    let files = file1();

    let children = get_children("/tag2", &tags, &files);
    assert_eq!(3, children.len());
    assert!(has_entry(&children, FileType::Directory, "tag1"));
    assert!(has_entry(&children, FileType::Directory, "tag3"));
    assert!(has_entry(&children, FileType::RegularFile, "file1.txt"));
}

#[test]
fn intersection_depth_two() {
    // File 0 tagged {tag1, tag2}: the depth-two listing shows only the file.
    let tags = vec![
        TagEntry::new(Tag::from("tag1"), vec![0]),
        TagEntry::new(Tag::from("tag2"), vec![0]),
        TagEntry::new(Tag::from("tag3"), vec![]),
    ];
    let files = file1();

    let children = get_children("/tag2/tag1", &tags, &files);
    assert_eq!(2, children.len());
    assert!(has_entry(&children, FileType::Directory, "tag3"));
    assert!(has_entry(&children, FileType::RegularFile, "file1.txt"));
}

#[test]
fn listing_is_order_insensitive() {
    let tags = vec![
        TagEntry::new(Tag::from("tag1"), vec![0, 1]),
        TagEntry::new(Tag::from("tag2"), vec![0]),
        TagEntry::new(Tag::from("tag3"), vec![1]),
    ];
    let files = vec![Entry::new("/src/a.txt"), Entry::new("/src/b.txt")];

    let forward = get_children("/tag1/tag2", &tags, &files);
    let backward = get_children("/tag2/tag1", &tags, &files);
    assert_eq!(forward.len(), backward.len());
    for c in forward.iter() {
        assert!(has_entry(&backward, c.kind, &c.name));
    }
}

#[test]
fn duplicate_basenames_deduplicated() {
    let tags = vec![TagEntry::new(Tag::from("tag"), vec![0, 1, 2])];
    let files = vec![
        Entry::new("/one/same.txt"),
        Entry::new("/two/same.txt"),
        Entry::new("/three/other.txt"),
    ];

    let children = get_children("/tag", &tags, &files);
    assert_eq!(2, children.len());
    assert!(has_entry(&children, FileType::RegularFile, "same.txt"));
    assert!(has_entry(&children, FileType::RegularFile, "other.txt"));
}

#[test]
fn empty_index_root_listing() {
    let tags: Vec<TagEntry> = vec![];
    let files: Vec<Entry> = vec![];
    let children = get_children("/", &tags, &files);
    assert_eq!(0, children.len());
}
