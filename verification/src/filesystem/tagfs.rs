//! The tag index and the filesystem adapter: path resolution, directory
//! listing by tag intersection, and passthrough of file operations.

use vstd::prelude::*;

use crate::errno::{spec_os_error_code, os_error_code, EIO, ENOENT, OsError};
use crate::filesystem::libc_wrappers::{
    mode_to_filetype, spec_mode_to_filetype, FileStat, FileType, LibcWrapper,
};
use crate::strutil::{
    basename, contains_usize, copy_usize_vec, i64_to_u64_wrap, intersect_sorted, low_u32,
    normal_components, path_components, sorted_strict, spec_basename, string_eq, u64_to_i32_wrap,
    u64_to_i64_wrap, u64_to_u32_wrap, vec_str_contains, views_of, wrap_u64,
};
use crate::tagger::{clone_tag, Tag, TagLabel};

verus! {

/// How long, in seconds, a metadata reply stays valid for the requester.
pub const ATTR_TTL_SECS: u64 = 1;

/// A file entry of the index: the path of the backing file in the source
/// tree. Its position in the file list is its stable file id.
#[derive(Debug, Clone)]
pub struct Entry {
    pub source: String,
}

impl Entry {
    pub fn new(source: &str) -> (r: Entry)
        ensures
            r.source@ == source@,
    {
        Entry { source: String::from_str(source) }
    }
}

/// One tag of the index together with the ids of the files it covers, in
/// increasing id order.
#[derive(Debug, Clone)]
pub struct TagEntry {
    pub tag: Tag,
    pub ids: Vec<usize>,
}

impl TagEntry {
    pub fn new(tag: Tag, ids: Vec<usize>) -> (r: TagEntry)
        ensures
            r.tag == tag,
            r.ids@ == ids@,
    {
        TagEntry { tag, ids }
    }
}

/// Well-formedness of one tag entry against a file count: a well-formed
/// tag, ids strictly increasing and in range.
pub open spec fn entry_wf(e: TagEntry, nfiles: nat) -> bool {
    &&& e.tag.wf()
    &&& sorted_strict(e.ids@)
    &&& forall|k: int| 0 <= k < e.ids@.len() ==> (e.ids@[k] as nat) < nfiles
}

/// Well-formedness of the whole index: every entry well-formed and no two
/// entries sharing a tag key.
pub open spec fn index_wf(tags: Seq<TagEntry>, files: Seq<Entry>) -> bool {
    &&& forall|i: int| 0 <= i < tags.len() ==> entry_wf(#[trigger] tags[i], files.len())
    &&& forall|i: int, j: int|
        0 <= i < j < tags.len() ==> !tags[i].tag.same_key(tags[j].tag)
}

/// Whether some tag of the index displays as the given name.
pub open spec fn display_known(tags: Seq<TagEntry>, name: Seq<char>) -> bool {
    exists|i: int| 0 <= i < tags.len() && tags[i].tag.display@ == name
}

/// The first position at or after `i` whose tag displays as `name`, or the
/// length of the list when there is none.
pub open spec fn first_display_from(tags: Seq<TagEntry>, name: Seq<char>, i: int) -> int
    decreases tags.len() - i,
{
    if i < 0 || i >= tags.len() {
        tags.len() as int
    } else if tags[i].tag.display@ == name {
        i
    } else {
        first_display_from(tags, name, i + 1)
    }
}

pub proof fn lemma_first_display_props(tags: Seq<TagEntry>, name: Seq<char>, i: int)
    requires
        0 <= i <= tags.len(),
    ensures
        i <= first_display_from(tags, name, i) <= tags.len(),
        first_display_from(tags, name, i) < tags.len() ==> tags[first_display_from(
            tags,
            name,
            i,
        )].tag.display@ == name,
        forall|j: int| i <= j < first_display_from(tags, name, i) ==> tags[j].tag.display@ != name,
    decreases tags.len() - i,
{
    if i < tags.len() && tags[i].tag.display@ != name {
        lemma_first_display_props(tags, name, i + 1);
    }
}

/// The file ids covered by the name's tag, taking the first entry that
/// displays as the name.
pub open spec fn post_ids(tags: Seq<TagEntry>, name: Seq<char>) -> Set<usize>
    recommends
        display_known(tags, name),
{
    tags[first_display_from(tags, name, 0)].ids@.to_set()
}

/// The index of the first tag that displays as `name`, or the number of
/// tags when the name is unknown.
fn find_display(tags: &Vec<TagEntry>, name: &String) -> (r: usize)
    ensures
        r as int == first_display_from(tags@, name@, 0),
        r <= tags@.len(),
        r < tags@.len() ==> tags@[r as int].tag.display@ == name@,
        (r < tags@.len()) == display_known(tags@, name@),
{
    let ghost gname = name@;
    let mut i: usize = 0;
    while i < tags.len()
        invariant
            i <= tags@.len(),
            gname == name@,
            first_display_from(tags@, gname, 0) == first_display_from(tags@, gname, i as int),
            forall|j: int| 0 <= j < i ==> tags@[j].tag.display@ != gname,
        decreases tags@.len() - i,
    {
        let hit = string_eq(&tags[i].tag.display, name);
        proof {
            reveal_with_fuel(first_display_from, 2);
            if hit {
                assert(first_display_from(tags@, gname, i as int) == i);
            } else {
                assert(first_display_from(tags@, gname, i as int) == first_display_from(
                    tags@,
                    gname,
                    i + 1,
                ));
            }
        }
        if hit {
            return i;
        }
        i = i + 1;
    }
    proof {
        if display_known(tags@, gname) {
            let k = choose|k: int| 0 <= k < tags@.len() && tags@[k].tag.display@ == gname;
            assert(tags@[k].tag.display@ == gname);
        }
    }
    tags.len()
}

/// The first position at or after `i` whose tag has the same key, or the
/// length of the list when there is none.
pub open spec fn first_key_from(m: Seq<(Tag, Seq<usize>)>, t: Tag, i: int) -> int
    decreases m.len() - i,
{
    if i < 0 || i >= m.len() {
        m.len() as int
    } else if m[i].0.same_key(t) {
        i
    } else {
        first_key_from(m, t, i + 1)
    }
}

pub proof fn lemma_first_key_props(m: Seq<(Tag, Seq<usize>)>, t: Tag, i: int)
    requires
        0 <= i <= m.len(),
    ensures
        i <= first_key_from(m, t, i) <= m.len(),
        first_key_from(m, t, i) < m.len() ==> m[first_key_from(m, t, i)].0.same_key(t),
        forall|j: int| i <= j < first_key_from(m, t, i) ==> !m[j].0.same_key(t),
    decreases m.len() - i,
{
    if i < m.len() && !m[i].0.same_key(t) {
        lemma_first_key_props(m, t, i + 1);
    }
}

/// The key-to-ids model of the tag list.
pub open spec fn tags_model(tags: Seq<TagEntry>) -> Seq<(Tag, Seq<usize>)> {
    tags.map_values(|e: TagEntry| (e.tag, e.ids@))
}

/// The model after recording that the file `id` carries the tag `t`: the
/// id joins the tag's entry, or a new entry is appended for a new key.
pub open spec fn add_one(m: Seq<(Tag, Seq<usize>)>, t: Tag, id: usize) -> Seq<(Tag, Seq<usize>)> {
    let k = first_key_from(m, t, 0);
    if k == m.len() {
        m.push((t, seq![id]))
    } else if m[k].1.contains(id) {
        m
    } else {
        m.update(k, (m[k].0, m[k].1.push(id)))
    }
}

/// The model after recording every tag of a list for the file `id`.
pub open spec fn add_all(m: Seq<(Tag, Seq<usize>)>, ts: Seq<Tag>, id: usize) -> Seq<
    (Tag, Seq<usize>),
>
    decreases ts.len(),
{
    if ts.len() == 0 {
        m
    } else {
        add_one(add_all(m, ts.drop_last(), id), ts.last(), id)
    }
}

/// A sequence whose every adjacent pair increases is strictly increasing
/// throughout.
proof fn lemma_adjacent_implies_sorted(v: Seq<usize>)
    requires
        forall|x: int| 1 <= x < v.len() ==> v[x - 1] < #[trigger] v[x],
    ensures
        sorted_strict(v),
{
    assert forall|i: int, j: int| 0 <= i < j < v.len() implies v[i] < v[j] by {
        lemma_adjacent_chain(v, i, j);
    }
}

proof fn lemma_adjacent_chain(v: Seq<usize>, i: int, j: int)
    requires
        forall|x: int| 1 <= x < v.len() ==> v[x - 1] < #[trigger] v[x],
        0 <= i < j < v.len(),
    ensures
        v[i] < v[j],
    decreases j - i,
{
    if i + 1 < j {
        lemma_adjacent_chain(v, i, j - 1);
    }
}

/// The outcome of resolving a virtual path: a tag directory (or the
/// root), a file backed by the given source path, or nothing.
#[derive(Debug)]
pub enum LookupResult {
    Directory,
    File(String),
    Missing,
}

/// Whether every component is a known tag display.
pub open spec fn all_known(tags: Seq<TagEntry>, comps: Seq<Seq<char>>) -> bool {
    forall|i: int| 0 <= i < comps.len() ==> display_known(tags, #[trigger] comps[i])
}

/// A path is a directory when all of its normal components are known tag
/// displays; the root has none and always qualifies.
pub open spec fn dir_path(tags: Seq<TagEntry>, comps: Seq<Seq<char>>) -> bool {
    all_known(tags, comps)
}

/// The ids in the intersection of the components' tags: every file id for
/// an empty component list, and otherwise the ids carried by the first
/// matching entry of every component.
pub open spec fn parent_ids(tags: Seq<TagEntry>, nfiles: nat, comps: Seq<Seq<char>>) -> Set<usize> {
    Set::new(
        |id: usize|
            (id as nat) < nfiles && forall|i: int|
                0 <= i < comps.len() ==> post_ids(tags, #[trigger] comps[i]).contains(id),
    )
}

/// Whether the file at position `id` settles a lookup: it is in the
/// parent's intersection and its basename is the path's last component.
pub open spec fn file_hit(files: Seq<Entry>, pids: Set<usize>, name: Seq<char>, id: int) -> bool {
    &&& 0 <= id < files.len()
    &&& pids.contains(id as usize)
    &&& spec_basename(files[id].source@) == name
}

/// The first position at or after `i` that settles a lookup, or the number
/// of files when none does.
pub open spec fn first_hit_from(files: Seq<Entry>, pids: Set<usize>, name: Seq<char>, i: int) -> int
    decreases files.len() - i,
{
    if i < 0 || i >= files.len() {
        files.len() as int
    } else if file_hit(files, pids, name, i) {
        i
    } else {
        first_hit_from(files, pids, name, i + 1)
    }
}

/// The id a file path resolves to, assuming its parent components are all
/// known: the first file, in insertion order, that settles the lookup; the
/// number of files when none does.
pub open spec fn file_target(tags: Seq<TagEntry>, files: Seq<Entry>, comps: Seq<Seq<char>>) -> int {
    first_hit_from(
        files,
        parent_ids(tags, files.len(), comps.drop_last()),
        comps.last(),
        0,
    )
}

/// Whether a path resolves to a file: it is not a tag directory, it has a
/// last component, its parent components are all known, and some file in
/// the parent's intersection carries the last component as basename.
pub open spec fn resolves_file(tags: Seq<TagEntry>, files: Seq<Entry>, comps: Seq<Seq<char>>) -> bool {
    &&& !dir_path(tags, comps)
    &&& comps.len() > 0
    &&& all_known(tags, comps.drop_last())
    &&& file_target(tags, files, comps) < files.len()
}

/// Whether every component of the list is a known tag display.
fn all_components_known(tags: &Vec<TagEntry>, comps: &Vec<String>) -> (r: bool)
    ensures
        r == all_known(tags@, views_of(comps@)),
{
    let mut i: usize = 0;
    while i < comps.len()
        invariant
            i <= comps@.len(),
            forall|j: int| 0 <= j < i ==> display_known(tags@, #[trigger] views_of(comps@)[j]),
        decreases comps@.len() - i,
    {
        let k = find_display(tags, &comps[i]);
        if k == tags.len() {
            proof {
                assert(!display_known(tags@, views_of(comps@)[i as int]));
            }
            return false;
        }
        i = i + 1;
    }
    true
}

/// The intersection of the components' tag post-sets as a strictly
/// increasing id list, or nothing for an empty component list (meaning
/// every file).
fn intersect_components(tags: &Vec<TagEntry>, nfiles: usize, comps: &Vec<String>) -> (r: Option<
    Vec<usize>,
>)
    requires
        forall|i: int| 0 <= i < tags@.len() ==> entry_wf(#[trigger] tags@[i], nfiles as nat),
        all_known(tags@, views_of(comps@)),
    ensures
        r is None <==> comps@.len() == 0,
        r matches Some(v) ==> sorted_strict(v@) && (forall|id: usize|
            v@.contains(id) <==> parent_ids(tags@, nfiles as nat, views_of(comps@)).contains(id)),
{
    let ghost views = views_of(comps@);
    let mut acc: Option<Vec<usize>> = None;
    let mut i: usize = 0;
    while i < comps.len()
        invariant
            i <= comps@.len(),
            views == views_of(comps@),
            forall|a: int| 0 <= a < tags@.len() ==> entry_wf(#[trigger] tags@[a], nfiles as nat),
            all_known(tags@, views),
            acc is None <==> i == 0,
            acc matches Some(v) ==> sorted_strict(v@) && (forall|id: usize|
                v@.contains(id) <==> (id as nat) < nfiles as nat && forall|j: int|
                    0 <= j < i ==> post_ids(tags@, #[trigger] views[j]).contains(id)),
        decreases comps@.len() - i,
    {
        let k = find_display(tags, &comps[i]);
        proof {
            assert(display_known(tags@, views[i as int]));
            lemma_first_display_props(tags@, views[i as int], 0);
        }
        let ids = &tags[k].ids;
        let next = match &acc {
            None => {
                let v = copy_usize_vec(ids);
                proof {
                    assert forall|id: usize| v@.contains(id) implies (id as nat) < nfiles as nat by {
                        let x = choose|x: int| 0 <= x < v@.len() && v@[x] == id;
                        assert(entry_wf(tags@[k as int], nfiles as nat));
                    }
                }
                v
            },
            Some(prev) => intersect_sorted(prev, ids),
        };
        proof {
            assert(post_ids(tags@, views[i as int]) =~= tags@[k as int].ids@.to_set());
            assert forall|id: usize|
                next@.contains(id) <==> ((id as nat) < nfiles as nat && forall|j: int|
                    0 <= j < i + 1 ==> post_ids(tags@, #[trigger] views[j]).contains(id)) by {
                if next@.contains(id) {
                    assert(tags@[k as int].ids@.contains(id));
                    assert(post_ids(tags@, views[i as int]).contains(id));
                }
            }
        }
        acc = Some(next);
        i = i + 1;
    }
    proof {
        match &acc {
            Some(v) => {
                assert forall|id: usize|
                    v@.contains(id) == parent_ids(tags@, nfiles as nat, views).contains(
                    id,
                ) by {
                    assert(v@.contains(id) <==> ((id as nat) < nfiles as nat && forall|j: int|
                        0 <= j < comps@.len() ==> post_ids(tags@, #[trigger] views[j]).contains(
                            id,
                        )));
                }
            },
            None => {},
        }
    }
    acc
}

/// The attributes reported for a file or directory, timestamps as seconds
/// and nanoseconds past the epoch.
#[derive(Debug, Clone, Copy, PartialEq, Eq, Structural)]
pub struct FileAttr {
    pub size: u64,
    pub blocks: u64,
    pub atime_secs: u64,
    pub atime_nsecs: u64,
    pub mtime_secs: u64,
    pub mtime_nsecs: u64,
    pub ctime_secs: u64,
    pub ctime_nsecs: u64,
    pub crtime_secs: u64,
    pub crtime_nsecs: u64,
    pub kind: FileType,
    pub perm: u16,
    pub nlink: u32,
    pub uid: u32,
    pub gid: u32,
    pub rdev: u32,
    pub flags: u32,
}

/// The synthetic attributes of a tag directory: mode 0755, one link, size
/// zero, every timestamp at the epoch, owned by uid and gid 0.
pub open spec fn spec_directory_attr() -> FileAttr {
    FileAttr {
        size: 0,
        blocks: 0,
        atime_secs: 0,
        atime_nsecs: 0,
        mtime_secs: 0,
        mtime_nsecs: 0,
        ctime_secs: 0,
        ctime_nsecs: 0,
        crtime_secs: 0,
        crtime_nsecs: 0,
        kind: FileType::Directory,
        perm: 0o755,
        nlink: 1,
        uid: 0,
        gid: 0,
        rdev: 0,
        flags: 0,
    }
}

/// The attributes derived from a stat result: the kind from the mode word,
/// the permissions from its low twelve bits, sizes and ids verbatim,
/// timestamps reinterpreted unsigned, and a creation time at the epoch.
/// Nothing for an unknown file kind.
pub open spec fn spec_to_file_attr(st: FileStat) -> Option<FileAttr> {
    match spec_mode_to_filetype(st.st_mode) {
        Some(kind) => Some(
            FileAttr {
                size: wrap_u64(st.st_size as int) as u64,
                blocks: wrap_u64(st.st_blocks as int) as u64,
                atime_secs: wrap_u64(st.st_atime as int) as u64,
                atime_nsecs: wrap_u64(st.st_atime_nsec as int) as u64,
                mtime_secs: wrap_u64(st.st_mtime as int) as u64,
                mtime_nsecs: wrap_u64(st.st_mtime_nsec as int) as u64,
                ctime_secs: wrap_u64(st.st_ctime as int) as u64,
                ctime_nsecs: wrap_u64(st.st_ctime_nsec as int) as u64,
                crtime_secs: 0,
                crtime_nsecs: 0,
                kind,
                perm: (st.st_mode & 0o7777) as u16,
                nlink: low_u32(st.st_nlink as int) as u32,
                uid: st.st_uid,
                gid: st.st_gid,
                rdev: low_u32(st.st_rdev as int) as u32,
                flags: 0,
            },
        ),
        None => None,
    }
}

impl FileAttr {
    /// The synthetic attributes of a tag directory.
    pub fn directory_default() -> (r: FileAttr)
        ensures
            r == spec_directory_attr(),
    {
        FileAttr {
            size: 0,
            blocks: 0,
            atime_secs: 0,
            atime_nsecs: 0,
            mtime_secs: 0,
            mtime_nsecs: 0,
            ctime_secs: 0,
            ctime_nsecs: 0,
            crtime_secs: 0,
            crtime_nsecs: 0,
            kind: FileType::Directory,
            perm: 0o755,
            nlink: 1,
            uid: 0,
            gid: 0,
            rdev: 0,
            flags: 0,
        }
    }
}

impl FileStat {
    /// Converts a stat result to reported attributes; an unknown file kind
    /// yields nothing and the caller reports an invariant violation.
    pub fn to_file_attr(&self) -> (r: Option<FileAttr>)
        ensures
            r == spec_to_file_attr(*self),
    {
        let kind = match mode_to_filetype(self.st_mode) {
            Some(k) => k,
            None => {
                return None;
            },
        };
        let mode = self.st_mode;
        proof {
            assert(mode & 0o7777 < 0x1_0000) by (bit_vector);
        }
        Some(
            FileAttr {
                size: i64_to_u64_wrap(self.st_size),
                blocks: i64_to_u64_wrap(self.st_blocks),
                atime_secs: i64_to_u64_wrap(self.st_atime),
                atime_nsecs: i64_to_u64_wrap(self.st_atime_nsec),
                mtime_secs: i64_to_u64_wrap(self.st_mtime),
                mtime_nsecs: i64_to_u64_wrap(self.st_mtime_nsec),
                ctime_secs: i64_to_u64_wrap(self.st_ctime),
                ctime_nsecs: i64_to_u64_wrap(self.st_ctime_nsec),
                crtime_secs: 0,
                crtime_nsecs: 0,
                kind,
                perm: (mode & 0o7777) as u16,
                nlink: u64_to_u32_wrap(self.st_nlink),
                uid: self.st_uid,
                gid: self.st_gid,
                rdev: u64_to_u32_wrap(self.st_rdev),
                flags: 0,
            },
        )
    }
}

/// The reply to a stat-backed attribute request: the converted attributes,
/// an invariant-violation errno for an unknown kind, and otherwise the
/// stat error's errno verbatim.
pub open spec fn spec_attr_reply(sr: Result<FileStat, OsError>) -> Result<FileAttr, i32> {
    match sr {
        Ok(st) => match spec_to_file_attr(st) {
            Some(a) => Ok(a),
            None => Err(EIO),
        },
        Err(e) => Err(spec_os_error_code(e)),
    }
}

/// Maps a stat outcome from the shim to the attribute reply.
pub fn attr_reply(sr: Result<FileStat, OsError>) -> (r: Result<FileAttr, i32>)
    ensures
        r == spec_attr_reply(sr),
{
    match sr {
        Ok(st) => match st.to_file_attr() {
            Some(a) => Ok(a),
            None => Err(EIO),
        },
        Err(e) => Err(os_error_code(&e)),
    }
}

/// A synthesized directory entry: a name and its kind.
#[derive(Debug, Clone)]
pub struct DirEntry {
    pub kind: FileType,
    pub name: String,
}

/// The (kind, name) pairs of a list of directory entries.
pub open spec fn entries_model(s: Seq<DirEntry>) -> Seq<(FileType, Seq<char>)> {
    s.map_values(|d: DirEntry| (d.kind, d.name@))
}

/// Whether position `j` holds a visited singleton tag with the given
/// label: its display is on the path and its label is singleton.
pub open spec fn singleton_visit_at(
    tags: Seq<TagEntry>,
    names: Set<Seq<char>>,
    l: Seq<char>,
    j: int,
) -> bool {
    &&& names.contains(tags[j].tag.display@)
    &&& match tags[j].tag.label {
        Some(lab) => lab.singleton && lab.label@ == l,
        None => false,
    }
}

/// Whether the path has committed to some value of the singleton label.
pub open spec fn singleton_visited(tags: Seq<TagEntry>, names: Set<Seq<char>>, l: Seq<char>) -> bool {
    exists|j: int| 0 <= j < tags.len() && singleton_visit_at(tags, names, l, j)
}

/// Whether a tag is suppressed in a listing: it is singleton and the path
/// has already committed to a value of its label, so the alternative
/// values would only name empty directories.
pub open spec fn suppressed(tags: Seq<TagEntry>, names: Set<Seq<char>>, e: TagEntry) -> bool {
    match e.tag.label {
        Some(lab) => lab.singleton && singleton_visited(tags, names, lab.label@),
        None => false,
    }
}

/// The tag-directory children of a listing, over the first `n` entries:
/// each tag not already on the path and not suppressed, in index order.
pub open spec fn tag_children(tags: Seq<TagEntry>, names: Set<Seq<char>>, n: int) -> Seq<Seq<char>>
    decreases n,
{
    if n <= 0 {
        Seq::<Seq<char>>::empty()
    } else {
        let rest = tag_children(tags, names, n - 1);
        let e = tags[n - 1];
        if !names.contains(e.tag.display@) && !suppressed(tags, names, e) {
            rest.push(e.tag.display@)
        } else {
            rest
        }
    }
}

/// Whether any tag of the index displays as one of the names.
pub open spec fn any_display_match(tags: Seq<TagEntry>, names: Set<Seq<char>>) -> bool {
    exists|i: int| 0 <= i < tags.len() && names.contains(tags[i].tag.display@)
}

/// The ids listed as files under an intersection path: those carried by
/// every entry whose display is on the path; empty when no entry matches,
/// in particular at the root.
pub open spec fn listing_ids(tags: Seq<TagEntry>, names: Set<Seq<char>>) -> Set<usize> {
    Set::new(
        |id: usize|
            any_display_match(tags, names) && forall|i: int|
                0 <= i < tags.len() && names.contains(
                    (#[trigger] tags[i]).tag.display@,
                ) ==> tags[i].ids@.contains(id),
    )
}

/// The file children of a listing, over the first `n` files: the basename
/// of each file in the intersection, in insertion order, first occurrence
/// of each basename kept.
pub open spec fn file_children(files: Seq<Entry>, f: Set<usize>, n: int) -> Seq<Seq<char>>
    decreases n,
{
    if n <= 0 {
        Seq::<Seq<char>>::empty()
    } else {
        let rest = file_children(files, f, n - 1);
        let b = spec_basename(files[n - 1].source@);
        if f.contains((n - 1) as usize) && !rest.contains(b) {
            rest.push(b)
        } else {
            rest
        }
    }
}

/// The full listing of a directory path: its tag-directory children, then
/// its file children.
pub open spec fn children_model(
    tags: Seq<TagEntry>,
    files: Seq<Entry>,
    names: Set<Seq<char>>,
) -> Seq<(FileType, Seq<char>)> {
    tag_children(tags, names, tags.len() as int).map_values(
        |n: Seq<char>| (FileType::Directory, n),
    ) + file_children(files, listing_ids(tags, names), files.len() as int).map_values(
        |n: Seq<char>| (FileType::RegularFile, n),
    )
}

/// The children of a directory path: every tag not on the path and not a
/// suppressed singleton alternative, as directories, then the basenames of
/// the files carrying every tag on the path, deduplicated, as regular
/// files. The root lists every tag and no files.
pub fn get_children(root: &str, tags: &Vec<TagEntry>, files: &Vec<Entry>) -> (r: Vec<DirEntry>)
    requires
        index_wf(tags@, files@),
    ensures
        entries_model(r@) == children_model(tags@, files@, normal_components(root@).to_set()),
{
    let comps = path_components(root);
    let ghost names = normal_components(root@).to_set();
    proof {
        assert forall|x: Seq<char>| names.contains(x) == views_of(comps@).contains(x) by {}
    }
    // Which singleton labels the path has committed to.
    let mut sl: Vec<String> = Vec::new();
    let mut i: usize = 0;
    while i < tags.len()
        invariant
            i <= tags@.len(),
            names == normal_components(root@).to_set(),
            views_of(comps@) == normal_components(root@),
            forall|l: Seq<char>|
                views_of(sl@).contains(l) <==> exists|j: int|
                    0 <= j < i && singleton_visit_at(tags@, names, l, j),
        decreases tags@.len() - i,
    {
        let ghost slprev = sl@;
        let visited = vec_str_contains(&comps, &tags[i].tag.display);
        let pushed = match &tags[i].tag.label {
            Some(lab) => {
                if lab.singleton && visited {
                    sl.push(lab.label.clone());
                    true
                } else {
                    false
                }
            },
            None => false,
        };
        proof {
            if pushed {
                let lab = choose|lab: TagLabel| tags@[i as int].tag.label == Some(lab);
                assert(views_of(sl@) =~= views_of(slprev).push(lab.label@));
                assert(singleton_visit_at(tags@, names, lab.label@, i as int));
                assert forall|l: Seq<char>| views_of(sl@).contains(l) implies exists|j: int|
                    0 <= j < i + 1 && singleton_visit_at(tags@, names, l, j) by {
                    if views_of(slprev).contains(l) {
                        let j = choose|j: int| 0 <= j < i && singleton_visit_at(tags@, names, l, j);
                        assert(singleton_visit_at(tags@, names, l, j));
                    } else {
                        assert(l == lab.label@);
                    }
                }
                assert forall|l: Seq<char>|
                    (exists|j: int|
                        0 <= j < i + 1 && singleton_visit_at(tags@, names, l, j)) implies views_of(
                    sl@,
                ).contains(l) by {
                    let j = choose|j: int| 0 <= j < i + 1 && singleton_visit_at(tags@, names, l, j);
                    if j < i {
                        assert(views_of(slprev).contains(l));
                        let k = choose|k: int|
                            0 <= k < views_of(slprev).len() && views_of(slprev)[k] == l;
                        assert(views_of(sl@)[k] == l);
                    } else {
                        assert(views_of(sl@).last() == l);
                    }
                }
            } else {
                assert(sl@ == slprev);
                assert forall|l: Seq<char>| !singleton_visit_at(tags@, names, l, i as int) by {}
                assert forall|l: Seq<char>|
                    (exists|j: int|
                        0 <= j < i + 1 && singleton_visit_at(tags@, names, l, j)) implies views_of(
                    sl@,
                ).contains(l) by {
                    let j = choose|j: int| 0 <= j < i + 1 && singleton_visit_at(tags@, names, l, j);
                    assert(j < i);
                }
            }
        }
        i = i + 1;
    }
    // Tag-directory children.
    let mut out: Vec<DirEntry> = Vec::new();
    let mut i2: usize = 0;
    while i2 < tags.len()
        invariant
            i2 <= tags@.len(),
            names == normal_components(root@).to_set(),
            views_of(comps@) == normal_components(root@),
            forall|l: Seq<char>| views_of(sl@).contains(l) <==> singleton_visited(tags@, names, l),
            entries_model(out@) == tag_children(tags@, names, i2 as int).map_values(
                |n: Seq<char>| (FileType::Directory, n),
            ),
        decreases tags@.len() - i2,
    {
        let e = &tags[i2];
        let in_names = vec_str_contains(&comps, &e.tag.display);
        let supp = match &e.tag.label {
            Some(lab) => lab.singleton && vec_str_contains(&sl, &lab.label),
            None => false,
        };
        proof {
            assert(supp == suppressed(tags@, names, tags@[i2 as int]));
        }
        let ghost outprev = out@;
        if !in_names && !supp {
            out.push(DirEntry { kind: FileType::Directory, name: e.tag.display.clone() });
            proof {
                assert(entries_model(out@) =~= entries_model(outprev).push(
                    (FileType::Directory, tags@[i2 as int].tag.display@),
                ));
            }
        }
        proof {
            assert(entries_model(out@) =~= tag_children(tags@, names, i2 + 1).map_values(
                |n: Seq<char>| (FileType::Directory, n),
            ));
        }
        i2 = i2 + 1;
    }
    let ghost tag_part = entries_model(out@);
    // The ids carrying every tag on the path.
    let mut acc: Option<Vec<usize>> = None;
    let mut i3: usize = 0;
    while i3 < tags.len()
        invariant
            i3 <= tags@.len(),
            names == normal_components(root@).to_set(),
            views_of(comps@) == normal_components(root@),
            index_wf(tags@, files@),
            acc is None <==> (forall|j: int|
                0 <= j < i3 ==> !names.contains((#[trigger] tags@[j]).tag.display@)),
            acc matches Some(v) ==> sorted_strict(v@) && (exists|j: int|
                0 <= j < i3 && names.contains((#[trigger] tags@[j]).tag.display@)) && (forall|
                id: usize,
            |
                v@.contains(id) <==> (forall|j: int|
                    0 <= j < i3 && names.contains(
                        (#[trigger] tags@[j]).tag.display@,
                    ) ==> tags@[j].ids@.contains(id))),
        decreases tags@.len() - i3,
    {
        if vec_str_contains(&comps, &tags[i3].tag.display) {
            let ids = &tags[i3].ids;
            proof {
                assert(entry_wf(tags@[i3 as int], files@.len()));
            }
            let next = match &acc {
                None => {
                    let v = copy_usize_vec(ids);
                    proof {
                        assert forall|id: usize|
                            v@.contains(id) <==> (forall|j: int|
                                0 <= j < i3 + 1 && names.contains(
                                    (#[trigger] tags@[j]).tag.display@,
                                ) ==> tags@[j].ids@.contains(id)) by {
                            if forall|j: int|
                                0 <= j < i3 + 1 && names.contains(
                                    (#[trigger] tags@[j]).tag.display@,
                                ) ==> tags@[j].ids@.contains(id) {
                                assert(tags@[i3 as int].ids@.contains(id));
                            }
                        }
                    }
                    v
                },
                Some(prev) => {
                    let v = intersect_sorted(prev, ids);
                    proof {
                        assert forall|id: usize|
                            v@.contains(id) <==> (forall|j: int|
                                0 <= j < i3 + 1 && names.contains(
                                    (#[trigger] tags@[j]).tag.display@,
                                ) ==> tags@[j].ids@.contains(id)) by {
                            if forall|j: int|
                                0 <= j < i3 + 1 && names.contains(
                                    (#[trigger] tags@[j]).tag.display@,
                                ) ==> tags@[j].ids@.contains(id) {
                                assert(prev@.contains(id));
                                assert(tags@[i3 as int].ids@.contains(id));
                            }
                        }
                    }
                    v
                },
            };
            acc = Some(next);
        }
        i3 = i3 + 1;
    }
    let ghost f = listing_ids(tags@, names);
    proof {
        match &acc {
            Some(v) => {
                assert forall|id: usize| v@.contains(id) == f.contains(id) by {
                    if v@.contains(id) {
                        assert(any_display_match(tags@, names));
                    }
                }
            },
            None => {
                assert(!any_display_match(tags@, names));
                assert forall|id: usize| !f.contains(id) by {}
            },
        }
    }
    // File children, deduplicated by basename, insertion order.
    let mut seen: Vec<String> = Vec::new();
    let mut id: usize = 0;
    while id < files.len()
        invariant
            id <= files@.len(),
            f == listing_ids(tags@, names),
            acc is None ==> forall|x: usize| !f.contains(x),
            acc matches Some(v) ==> forall|x: usize| v@.contains(x) == f.contains(x),
            views_of(seen@) == file_children(files@, f, id as int),
            entries_model(out@) == tag_part + file_children(files@, f, id as int).map_values(
                |n: Seq<char>| (FileType::RegularFile, n),
            ),
        decreases files@.len() - id,
    {
        let in_f = match &acc {
            None => false,
            Some(v) => contains_usize(v, id),
        };
        proof {
            assert(in_f == f.contains(id));
        }
        if in_f {
            let b = basename(files[id].source.as_str());
            if !vec_str_contains(&seen, &b) {
                let ghost seenprev = seen@;
                let ghost outprev = out@;
                let name = b.clone();
                seen.push(b);
                out.push(DirEntry { kind: FileType::RegularFile, name });
                proof {
                    assert(views_of(seen@) =~= views_of(seenprev).push(
                        spec_basename(files@[id as int].source@),
                    ));
                    assert(entries_model(out@) =~= entries_model(outprev).push(
                        (FileType::RegularFile, spec_basename(files@[id as int].source@)),
                    ));
                }
            }
        }
        proof {
            assert(views_of(seen@) =~= file_children(files@, f, id + 1));
            assert(entries_model(out@) =~= tag_part + file_children(files@, f, id + 1).map_values(
                |n: Seq<char>| (FileType::RegularFile, n),
            ));
        }
        id = id + 1;
    }
    out
}

/// The engine is order-insensitive: two paths with the same set of normal
/// components have the same listing, and one is a tag directory exactly
/// when the other is.
pub proof fn lemma_order_insensitive(
    tags: Seq<TagEntry>,
    files: Seq<Entry>,
    comps1: Seq<Seq<char>>,
    comps2: Seq<Seq<char>>,
)
    requires
        comps1.to_set() == comps2.to_set(),
    ensures
        children_model(tags, files, comps1.to_set()) == children_model(tags, files, comps2.to_set()),
        dir_path(tags, comps1) == dir_path(tags, comps2),
{
    assert forall|i: int|
        0 <= i < comps1.len() && dir_path(tags, comps2) implies display_known(
        tags,
        #[trigger] comps1[i],
    ) by {
        assert(comps1.to_set().contains(comps1[i]));
        let j = choose|j: int| 0 <= j < comps2.len() && comps2[j] == comps1[i];
        assert(display_known(tags, comps2[j]));
    }
    assert forall|i: int|
        0 <= i < comps2.len() && dir_path(tags, comps1) implies display_known(
        tags,
        #[trigger] comps2[i],
    ) by {
        assert(comps2.to_set().contains(comps2[i]));
        let j = choose|j: int| 0 <= j < comps1.len() && comps1[j] == comps2[i];
        assert(display_known(tags, comps1[j]));
    }
}

proof fn lemma_tag_children_root(tags: Seq<TagEntry>, n: int)
    requires
        0 <= n <= tags.len(),
    ensures
        tag_children(tags, Set::<Seq<char>>::empty(), n) =~= Seq::new(
            n as nat,
            |i: int| tags[i].tag.display@,
        ),
    decreases n,
{
    if n > 0 {
        lemma_tag_children_root(tags, n - 1);
        assert(!suppressed(tags, Set::<Seq<char>>::empty(), tags[n - 1]));
    }
}

proof fn lemma_file_children_empty(files: Seq<Entry>, f: Set<usize>, n: int)
    requires
        forall|id: usize| !f.contains(id),
    ensures
        file_children(files, f, n) =~= Seq::<Seq<char>>::empty(),
    decreases n,
{
    if n > 0 {
        lemma_file_children_empty(files, f, n - 1);
    }
}

/// Listing the root shows exactly the display of every tag of the index,
/// in index order, each as a directory, and no file entries. (The adapter
/// prepends the `.` and `..` entries on top of this.)
pub proof fn lemma_root_listing(tags: Seq<TagEntry>, files: Seq<Entry>)
    ensures
        children_model(tags, files, Set::<Seq<char>>::empty()) =~= Seq::new(
            tags.len(),
            |i: int| (FileType::Directory, tags[i].tag.display@),
        ),
{
    lemma_tag_children_root(tags, tags.len() as int);
    assert(!any_display_match(tags, Set::<Seq<char>>::empty()));
    assert forall|id: usize| !listing_ids(tags, Set::<Seq<char>>::empty()).contains(id) by {}
    lemma_file_children_empty(files, listing_ids(tags, Set::<Seq<char>>::empty()), files.len() as int);
}

proof fn lemma_file_children_membership(files: Seq<Entry>, f: Set<usize>, n: int, b: Seq<char>)
    requires
        0 <= n <= files.len(),
    ensures
        file_children(files, f, n).contains(b) <==> exists|id: int|
            0 <= id < n && f.contains(id as usize) && spec_basename(files[id].source@) == b,
    decreases n,
{
    if n > 0 {
        lemma_file_children_membership(files, f, n - 1, b);
        let rest = file_children(files, f, n - 1);
        let bn = spec_basename(files[n - 1].source@);
        if f.contains((n - 1) as usize) && !rest.contains(bn) {
            assert(file_children(files, f, n) == rest.push(bn));
            if file_children(files, f, n).contains(b) {
                let k = choose|k: int|
                    0 <= k < file_children(files, f, n).len() && file_children(files, f, n)[k] == b;
                if k < rest.len() {
                    assert(rest.contains(b));
                }
            }
            if exists|id: int|
                0 <= id < n && f.contains(id as usize) && spec_basename(files[id].source@) == b {
                let id = choose|id: int|
                    0 <= id < n && f.contains(id as usize) && spec_basename(files[id].source@)
                        == b;
                if id < n - 1 {
                    assert(rest.contains(b));
                    let k = choose|k: int| 0 <= k < rest.len() && rest[k] == b;
                    assert(file_children(files, f, n)[k] == b);
                } else {
                    assert(file_children(files, f, n).last() == b);
                }
            }
        } else {
            if exists|id: int|
                0 <= id < n && f.contains(id as usize) && spec_basename(files[id].source@) == b {
                let id = choose|id: int|
                    0 <= id < n && f.contains(id as usize) && spec_basename(files[id].source@)
                        == b;
                if id == n - 1 {
                    assert(rest.contains(b));
                }
            }
        }
    }
}

/// The file children of an intersection path are exactly the basenames of
/// the files whose id carries every tag on the path: every file child is
/// such a basename, and every such basename is listed.
pub proof fn lemma_intersection_listing_exact(
    tags: Seq<TagEntry>,
    files: Seq<Entry>,
    names: Set<Seq<char>>,
    b: Seq<char>,
)
    ensures
        file_children(files, listing_ids(tags, names), files.len() as int).contains(b) <==> exists|
            id: int,
        |
            0 <= id < files.len() && listing_ids(tags, names).contains(id as usize)
                && spec_basename(files[id].source@) == b,
{
    lemma_file_children_membership(files, listing_ids(tags, names), files.len() as int, b);
}

proof fn lemma_tag_children_membership(
    tags: Seq<TagEntry>,
    names: Set<Seq<char>>,
    n: int,
    d: Seq<char>,
)
    requires
        0 <= n <= tags.len(),
    ensures
        tag_children(tags, names, n).contains(d) <==> exists|i: int|
            0 <= i < n && tags[i].tag.display@ == d && !names.contains(d) && !suppressed(
                tags,
                names,
                #[trigger] tags[i],
            ),
    decreases n,
{
    if n > 0 {
        lemma_tag_children_membership(tags, names, n - 1, d);
        let rest = tag_children(tags, names, n - 1);
        let e = tags[n - 1];
        if !names.contains(e.tag.display@) && !suppressed(tags, names, e) {
            assert(tag_children(tags, names, n) == rest.push(e.tag.display@));
            if tag_children(tags, names, n).contains(d) {
                let k = choose|k: int|
                    0 <= k < tag_children(tags, names, n).len() && tag_children(tags, names, n)[k]
                        == d;
                if k < rest.len() {
                    assert(rest.contains(d));
                }
            }
            if exists|i: int|
                0 <= i < n && tags[i].tag.display@ == d && !names.contains(d) && !suppressed(
                    tags,
                    names,
                    #[trigger] tags[i],
                ) {
                let i = choose|i: int|
                    0 <= i < n && tags[i].tag.display@ == d && !names.contains(d) && !suppressed(
                        tags,
                        names,
                        #[trigger] tags[i],
                    );
                if i < n - 1 {
                    assert(rest.contains(d));
                    let k = choose|k: int| 0 <= k < rest.len() && rest[k] == d;
                    assert(tag_children(tags, names, n)[k] == d);
                } else {
                    assert(tag_children(tags, names, n).last() == d);
                }
            }
        } else {
            if exists|i: int|
                0 <= i < n && tags[i].tag.display@ == d && !names.contains(d) && !suppressed(
                    tags,
                    names,
                    #[trigger] tags[i],
                ) {
                let i = choose|i: int|
                    0 <= i < n && tags[i].tag.display@ == d && !names.contains(d) && !suppressed(
                        tags,
                        names,
                        #[trigger] tags[i],
                    );
                if i == n - 1 {
                    assert(rest.contains(d));
                }
            }
        }
    }
}

/// Whether a tag keeps the display separator out of its own text: out of
/// the label when it has one, out of the value when it does not. Taggers
/// guarantee this for every tag they emit.
pub open spec fn separator_clean(t: Tag) -> bool {
    match t.label {
        Some(lab) => !lab.label@.contains(':'),
        None => !t.value@.contains(':'),
    }
}

proof fn lemma_label_prefix(a: Seq<char>, v: Seq<char>, l: Seq<char>)
    requires
        !a.contains(':'),
        !l.contains(':'),
        (a + seq![':'] + v).len() > l.len(),
        (a + seq![':'] + v).take(l.len() as int + 1) == l + seq![':'],
    ensures
        a == l,
{
    let d = a + seq![':'] + v;
    if a.len() < l.len() {
        assert(d[a.len() as int] == ':');
        assert((l + seq![':'])[a.len() as int] == l[a.len() as int]);
        assert(d.take(l.len() as int + 1)[a.len() as int] == d[a.len() as int]);
        assert(l.contains(':')) by {
            assert(l[a.len() as int] == ':');
        }
    } else if a.len() > l.len() {
        assert(d[l.len() as int] == a[l.len() as int]);
        assert(d.take(l.len() as int + 1)[l.len() as int] == ':');
        assert(a.contains(':')) by {
            assert(a[l.len() as int] == ':');
        }
    } else {
        assert(a =~= l) by {
            assert forall|k: int| 0 <= k < a.len() implies a[k] == l[k] by {
                assert(d.take(l.len() as int + 1)[k] == d[k]);
                assert(d[k] == a[k]);
                assert((l + seq![':'])[k] == l[k]);
            }
        }
    }
}

/// Once a path commits to one value of a singleton label, no listing under
/// that path offers another value of the label: no tag child's name begins
/// with the label and the separator. This needs the taggers' guarantees:
/// every tag is well-formed and separator-clean, and every tag carrying
/// the label is singleton.
pub proof fn lemma_singleton_suppression(
    tags: Seq<TagEntry>,
    names: Set<Seq<char>>,
    l: Seq<char>,
    d: Seq<char>,
)
    requires
        singleton_visited(tags, names, l),
        !l.contains(':'),
        forall|i: int| 0 <= i < tags.len() ==> (#[trigger] tags[i]).tag.wf(),
        forall|i: int| 0 <= i < tags.len() ==> separator_clean((#[trigger] tags[i]).tag),
        forall|i: int|
            0 <= i < tags.len() && (#[trigger] tags[i]).tag.label_view() == Some(l) ==> tags[i].tag.spec_is_singleton(),
        tag_children(tags, names, tags.len() as int).contains(d),
    ensures
        !(d.len() > l.len() && d.take(l.len() as int + 1) == l + seq![':']),
{
    lemma_tag_children_membership(tags, names, tags.len() as int, d);
    let i = choose|i: int|
        0 <= i < tags.len() && tags[i].tag.display@ == d && !names.contains(d) && !suppressed(
            tags,
            names,
            #[trigger] tags[i],
        );
    if d.len() > l.len() && d.take(l.len() as int + 1) == l + seq![':'] {
        match tags[i].tag.label {
            Some(lab) => {
                assert(d == lab.label@ + seq![':'] + tags[i].tag.value@);
                lemma_label_prefix(lab.label@, tags[i].tag.value@, l);
                assert(tags[i].tag.label_view() == Some(l));
                assert(tags[i].tag.spec_is_singleton());
                assert(lab.singleton);
                assert(suppressed(tags, names, tags[i]));
            },
            None => {
                assert(d == tags[i].tag.value@);
                assert(d.take(l.len() as int + 1)[l.len() as int] == ':');
                assert(d[l.len() as int] == ':');
                assert(tags[i].tag.value@.contains(':'));
            },
        }
    }
}

/// The attribute mapping never disagrees with itself: two stat results
/// that agree on size, link count, owner, group and the timestamp seconds
/// map to attributes that agree on those fields, so a stat of an open
/// handle and a stat of the path report the same values whenever the
/// underlying file does.
pub proof fn lemma_attr_fields_agree(s1: FileStat, s2: FileStat, a1: FileAttr, a2: FileAttr)
    requires
        s1.st_size == s2.st_size,
        s1.st_nlink == s2.st_nlink,
        s1.st_uid == s2.st_uid,
        s1.st_gid == s2.st_gid,
        s1.st_atime == s2.st_atime,
        s1.st_mtime == s2.st_mtime,
        s1.st_ctime == s2.st_ctime,
        spec_to_file_attr(s1) == Some(a1),
        spec_to_file_attr(s2) == Some(a2),
    ensures
        a1.size == a2.size,
        a1.nlink == a2.nlink,
        a1.uid == a2.uid,
        a1.gid == a2.gid,
        a1.atime_secs == a2.atime_secs,
        a1.mtime_secs == a2.mtime_secs,
        a1.ctime_secs == a2.ctime_secs,
{
}

/// The tag filesystem: the frozen file list and tag relation, and the
/// syscall capability used for passthrough operations.
#[derive(Debug)]
pub struct TagFS<T> {
    pub files: Vec<Entry>,
    pub tags: Vec<TagEntry>,
    pub libc_wrapper: T,
}

impl<T: LibcWrapper> TagFS<T> {
    /// The index invariant: every entry well-formed, keys unique.
    pub open spec fn wf(self) -> bool {
        index_wf(self.tags@, self.files@)
    }

    /// Whether the index invariant holds, checked at run time, so that
    /// callers outside the proof can guard it before handing over an
    /// index they assembled themselves.
    pub fn check_wf(&self) -> (r: bool)
        ensures
            r == self.wf(),
    {
        let nfiles = self.files.len();
        let mut i: usize = 0;
        while i < self.tags.len()
            invariant
                i <= self.tags@.len(),
                nfiles == self.files@.len(),
                forall|a: int| 0 <= a < i ==> entry_wf(#[trigger] self.tags@[a], self.files@.len()),
                forall|a: int, b: int|
                    0 <= a < b < i ==> !self.tags@[a].tag.same_key(self.tags@[b].tag),
            decreases self.tags@.len() - i,
        {
            if !self.check_entry(i, nfiles) {
                return false;
            }
            let mut j: usize = 0;
            while j < i
                invariant
                    j <= i,
                    i < self.tags@.len(),
                    forall|b: int| 0 <= b < j ==> !self.tags@[b].tag.same_key(self.tags@[i as int].tag),
                decreases i - j,
            {
                if self.tags[j].tag.key_eq(&self.tags[i].tag) {
                    return false;
                }
                j = j + 1;
            }
            i = i + 1;
        }
        true
    }

    /// Whether one entry of the tag list is well-formed against the file
    /// count.
    fn check_entry(&self, i: usize, nfiles: usize) -> (r: bool)
        requires
            i < self.tags@.len(),
            nfiles == self.files@.len(),
        ensures
            r == entry_wf(self.tags@[i as int], self.files@.len()),
    {
        let e = &self.tags[i];
        if !e.tag.check_wf() {
            return false;
        }
        let mut k: usize = 0;
        while k < e.ids.len()
            invariant
                k <= e.ids@.len(),
                e == self.tags@[i as int],
                nfiles == self.files@.len(),
                forall|x: int| 0 <= x < k ==> (e.ids@[x] as nat) < nfiles as nat,
                forall|x: int| 1 <= x < k ==> e.ids@[x - 1] < #[trigger] e.ids@[x],
            decreases e.ids@.len() - k,
        {
            if e.ids[k] >= nfiles {
                return false;
            }
            if k > 0 && e.ids[k - 1] >= e.ids[k] {
                proof {
                    assert(!sorted_strict(e.ids@));
                }
                return false;
            }
            k = k + 1;
        }
        proof {
            lemma_adjacent_implies_sorted(e.ids@);
        }
        true
    }

    /// An empty filesystem over a fresh syscall capability.
    pub fn new() -> (r: Self)
        ensures
            r.files@.len() == 0,
            r.tags@.len() == 0,
            r.wf(),
    {
        TagFS { files: Vec::new(), tags: Vec::new(), libc_wrapper: T::new() }
    }

    /// Appends a file with its tag set. The file gets the next id; each
    /// tag's entry gains that id, with entries for new keys appended in
    /// tag order.
    pub fn add_file(&mut self, source: &str, tags: Vec<Tag>)
        requires
            old(self).wf(),
            forall|i: int| 0 <= i < tags@.len() ==> (#[trigger] tags@[i]).wf(),
        ensures
            final(self).wf(),
            final(self).files@ =~= old(self).files@.push(final(self).files@.last()),
            final(self).files@.len() == old(self).files@.len() + 1,
            final(self).files@.last().source@ == source@,
            tags_model(final(self).tags@) == add_all(
                tags_model(old(self).tags@),
                tags@,
                old(self).files@.len() as usize,
            ),
            final(self).libc_wrapper == old(self).libc_wrapper,
    {
        let id = self.files.len();
        self.files.push(Entry::new(source));
        let ghost files1 = self.files@;
        let ghost m0 = tags_model(self.tags@);
        let ghost input = tags@;
        proof {
            assert(index_wf(self.tags@, self.files@)) by {
                assert forall|a: int|
                    0 <= a < self.tags@.len() implies entry_wf(
                    #[trigger] self.tags@[a],
                    self.files@.len(),
                ) by {
                    assert(entry_wf(self.tags@[a], old(self).files@.len()));
                }
            }
        }
        let mut i: usize = 0;
        while i < tags.len()
            invariant
                i <= input.len(),
                input == tags@,
                forall|j: int| 0 <= j < input.len() ==> (#[trigger] input[j]).wf(),
                tags_model(self.tags@) == add_all(m0, input.take(i as int), id),
                index_wf(self.tags@, self.files@),
                id + 1 == self.files@.len(),
                self.files@ == files1,
                self.libc_wrapper == old(self).libc_wrapper,
            decreases input.len() - i,
        {
            proof {
                assert(input.take(i + 1).drop_last() =~= input.take(i as int));
                assert(input.take(i + 1).last() == input[i as int]);
            }
            let ghost m = tags_model(self.tags@);
            let k = self.find_key(&tags[i]);
            proof {
                lemma_first_key_props(m, input[i as int], 0);
            }
            if k == self.tags.len() {
                let mut ids: Vec<usize> = Vec::new();
                ids.push(id);
                let t = clone_tag(&tags[i]);
                let ghost prev = self.tags@;
                self.tags.push(TagEntry { tag: t, ids });
                proof {
                    assert(tags_model(self.tags@) =~= tags_model(prev).push(
                        (input[i as int], seq![id]),
                    ));
                    assert forall|a: int|
                        0 <= a < self.tags@.len() implies entry_wf(
                        #[trigger] self.tags@[a],
                        self.files@.len(),
                    ) by {
                        if a < prev.len() {
                            assert(entry_wf(prev[a], self.files@.len()));
                        }
                    }
                    assert forall|a: int, b: int|
                        0 <= a < b < self.tags@.len() implies !self.tags@[a].tag.same_key(
                        self.tags@[b].tag,
                    ) by {
                        if b < prev.len() {
                            assert(!prev[a].tag.same_key(prev[b].tag));
                        } else {
                            assert(tags_model(prev)[a].0 == prev[a].tag);
                        }
                    }
                }
            } else {
                let present = contains_usize(&self.tags[k].ids, id);
                if !present {
                    let ghost prev = self.tags@;
                    let mut ids = copy_usize_vec(&self.tags[k].ids);
                    ids.push(id);
                    let t = clone_tag(&self.tags[k].tag);
                    self.tags.set(k, TagEntry { tag: t, ids });
                    proof {
                        assert(tags_model(self.tags@) =~= tags_model(prev).update(
                            k as int,
                            (prev[k as int].tag, prev[k as int].ids@.push(id)),
                        ));
                        assert(entry_wf(prev[k as int], self.files@.len()));
                        assert forall|a: int|
                            0 <= a < self.tags@.len() implies entry_wf(
                            #[trigger] self.tags@[a],
                            self.files@.len(),
                        ) by {
                            assert(entry_wf(prev[a], self.files@.len()));
                            if a == k as int {
                                let e = self.tags@[a];
                                assert forall|x: int, y: int|
                                    0 <= x < y < e.ids@.len() implies e.ids@[x] < e.ids@[y] by {
                                    if y < prev[k as int].ids@.len() {
                                        assert(prev[k as int].ids@[x] < prev[k as int].ids@[y]);
                                    } else {
                                        assert((prev[k as int].ids@[x] as nat) < self.files@.len());
                                    }
                                }
                            }
                        }
                        assert forall|a: int, b: int|
                            0 <= a < b < self.tags@.len() implies !self.tags@[a].tag.same_key(
                            self.tags@[b].tag,
                        ) by {
                            assert(!prev[a].tag.same_key(prev[b].tag));
                        }
                    }
                }
            }
            i = i + 1;
        }
        proof {
            assert(input.take(input.len() as int) =~= input);
        }
    }

    /// Answers a metadata request. With a handle the descriptor is stated
    /// through the shim; otherwise a directory path gets the synthetic
    /// attributes, a file path the converted stat of its source, and a
    /// missing path `ENOENT`. Every successful reply is valid for
    /// `ATTR_TTL_SECS` seconds.
    pub fn getattr(&self, path: &str, fh: Option<u64>) -> (r: Result<FileAttr, i32>)
        requires
            self.wf(),
        ensures
            fh is None && dir_path(self.tags@, normal_components(path@)) ==> r == Ok::<
                FileAttr,
                i32,
            >(spec_directory_attr()),
            fh is None && !dir_path(self.tags@, normal_components(path@)) && !resolves_file(
                self.tags@,
                self.files@,
                normal_components(path@),
            ) ==> r == Err::<FileAttr, i32>(ENOENT),
            fh is Some || resolves_file(self.tags@, self.files@, normal_components(path@))
                ==> exists|sr: Result<FileStat, OsError>| r == spec_attr_reply(sr),
    {
        match fh {
            Some(h) => {
                let sr = self.libc_wrapper.fstat(h);
                let ghost gsr = sr;
                let r = attr_reply(sr);
                proof {
                    assert(r == spec_attr_reply(gsr));
                }
                r
            },
            None => {
                match self.lookup(path) {
                    LookupResult::Directory => Ok(FileAttr::directory_default()),
                    LookupResult::Missing => Err(ENOENT),
                    LookupResult::File(src) => {
                        let sr = self.libc_wrapper.lstat(src.as_str());
                        let ghost gsr = sr;
                        let r = attr_reply(sr);
                        proof {
                            assert(r == spec_attr_reply(gsr));
                        }
                        r
                    },
                }
            },
        }
    }

    /// Opens a directory: handle 0 and flags 0 for any tag-directory path,
    /// `ENOENT` for everything else. No per-directory state is kept.
    pub fn opendir(&self, path: &str, _flags: u32) -> (r: Result<(u64, u32), i32>)
        requires
            self.wf(),
        ensures
            dir_path(self.tags@, normal_components(path@)) ==> r == Ok::<(u64, u32), i32>((0, 0)),
            !dir_path(self.tags@, normal_components(path@)) ==> r == Err::<(u64, u32), i32>(
                ENOENT,
            ),
    {
        let comps = path_components(path);
        if all_components_known(&self.tags, &comps) {
            Ok((0, 0))
        } else {
            Err(ENOENT)
        }
    }

    /// Lists a directory: the `.` and `..` entries, then the children of
    /// the path, whatever handle the kernel passes.
    pub fn readdir(&self, path: &str, _fh: u64) -> (r: Result<Vec<DirEntry>, i32>)
        requires
            self.wf(),
        ensures
            r matches Ok(es) && entries_model(es@) == seq![
                (FileType::Directory, "."@),
                (FileType::Directory, ".."@),
            ] + children_model(self.tags@, self.files@, normal_components(path@).to_set()),
    {
        let mut entries: Vec<DirEntry> = Vec::new();
        entries.push(DirEntry { kind: FileType::Directory, name: String::from_str(".") });
        entries.push(DirEntry { kind: FileType::Directory, name: String::from_str("..") });
        let ghost dots = entries_model(entries@);
        proof {
            assert(dots =~= seq![(FileType::Directory, "."@), (FileType::Directory, ".."@)]);
        }
        let mut children = get_children(path, &self.tags, &self.files);
        let ghost ch = entries_model(children@);
        entries.append(&mut children);
        proof {
            assert(entries_model(entries@) =~= dots + ch);
        }
        Ok(entries)
    }

    /// Opens a file: the path must resolve to a file, whose source is then
    /// opened through the shim with the kernel's flags; the descriptor is
    /// returned with those flags. Anything else is `ENOENT`.
    pub fn open(&self, path: &str, flags: u32) -> (r: Result<(u64, u32), i32>)
        requires
            self.wf(),
        ensures
            !resolves_file(self.tags@, self.files@, normal_components(path@)) ==> r == Err::<
                (u64, u32),
                i32,
            >(ENOENT),
            r matches Ok(p) ==> p.1 == flags,
    {
        match self.lookup(path) {
            LookupResult::File(src) => {
                match self.libc_wrapper.open(src.as_str(), u64_to_i32_wrap(flags as u64)) {
                    Ok(fd) => Ok((i64_to_u64_wrap(fd as i64), flags)),
                    Err(e) => Err(os_error_code(&e)),
                }
            },
            LookupResult::Directory => Err(ENOENT),
            LookupResult::Missing => Err(ENOENT),
        }
    }

    /// Releases a handle: closes the descriptor through the shim and
    /// reports its errno verbatim (through `os_error_code`). The kernel
    /// sends exactly one release per successful open, and the result is
    /// wholly the shim's, so there is nothing more to state here.
    pub fn release(
        &self,
        _path: &str,
        fh: u64,
        _flags: u32,
        _lock_owner: u64,
        _flush: bool,
    ) -> (r: Result<(), i32>) {
        match self.libc_wrapper.close(u64_to_i32_wrap(fh)) {
            Ok(u) => Ok(u),
            Err(e) => Err(os_error_code(&e)),
        }
    }

    /// Reads from a handle: up to `size` bytes at `offset` through the
    /// shim, or the shim's errno verbatim (through `os_error_code`). The
    /// result is wholly the shim's, so there is nothing more to state
    /// here.
    pub fn read(&self, _path: &str, fh: u64, offset: u64, size: u32) -> (r: Result<Vec<u8>, i32>) {
        match self.libc_wrapper.read(u64_to_i32_wrap(fh), u64_to_i64_wrap(offset), size) {
            Ok(content) => Ok(content),
            Err(e) => Err(os_error_code(&e)),
        }
    }

    /// Unlinks a file: `parent/name` must resolve to a file, whose source
    /// is then unlinked through the shim; the shim's errno is propagated
    /// verbatim, a permission error included. Anything else is `ENOENT`,
    /// and the index itself is never changed.
    pub fn unlink(&self, parent: &str, name: &str) -> (r: Result<(), i32>)
        requires
            self.wf(),
        ensures
            !resolves_file(
                self.tags@,
                self.files@,
                normal_components(parent@ + seq!['/'] + name@),
            ) ==> r == Err::<(), i32>(ENOENT),
    {
        let mut full = String::from_str(parent);
        full.append("/");
        full.append(name);
        proof {
            reveal_strlit("/");
            assert("/"@ =~= seq!['/']);
            assert(full@ =~= parent@ + seq!['/'] + name@);
        }
        match self.lookup(full.as_str()) {
            LookupResult::File(src) => {
                match self.libc_wrapper.unlink(src.as_str()) {
                    Ok(u) => Ok(u),
                    Err(e) => Err(os_error_code(&e)),
                }
            },
            LookupResult::Directory => Err(ENOENT),
            LookupResult::Missing => Err(ENOENT),
        }
    }

    /// Classifies a virtual path: a directory when every normal component
    /// is a known tag display; otherwise the first file, in insertion
    /// order, whose basename is the last component and whose id carries
    /// every parent component's tag; otherwise missing.
    pub fn lookup(&self, path: &str) -> (r: LookupResult)
        requires
            self.wf(),
        ensures
            dir_path(self.tags@, normal_components(path@)) ==> r is Directory,
            resolves_file(self.tags@, self.files@, normal_components(path@)) ==> (r matches LookupResult::File(s)
                && s@ == self.files@[file_target(
                self.tags@,
                self.files@,
                normal_components(path@),
            )].source@),
            !dir_path(self.tags@, normal_components(path@)) && !resolves_file(
                self.tags@,
                self.files@,
                normal_components(path@),
            ) ==> r is Missing,
    {
        let ghost comps_view = normal_components(path@);
        let mut comps = path_components(path);
        if all_components_known(&self.tags, &comps) {
            return LookupResult::Directory;
        }
        // Not a tag directory, so there is at least one component; the
        // last one may name a file under the parent's intersection.
        let last = match comps.pop() {
            Some(l) => l,
            None => {
                proof {
                    assert(comps_view.len() == 0 ==> dir_path(self.tags@, comps_view));
                }
                return LookupResult::Missing;
            },
        };
        proof {
            assert(views_of(comps@.push(last)) =~= comps_view);
            assert(views_of(comps@) =~= views_of(comps@.push(last)).drop_last());
            assert(comps_view.drop_last() =~= views_of(comps@));
            assert(comps_view.last() == last@);
        }
        if !all_components_known(&self.tags, &comps) {
            return LookupResult::Missing;
        }
        let pids = intersect_components(&self.tags, self.files.len(), &comps);
        let ghost gpids = parent_ids(self.tags@, self.files@.len(), comps_view.drop_last());
        let nfiles = self.files.len();
        let mut id: usize = 0;
        while id < nfiles
            invariant
                id <= nfiles,
                nfiles == self.files@.len(),
                comps_view == normal_components(path@),
                !all_known(self.tags@, comps_view),
                comps_view.len() > 0,
                all_known(self.tags@, comps_view.drop_last()),
                gpids == parent_ids(self.tags@, self.files@.len(), comps_view.drop_last()),
                pids is None ==> comps_view.drop_last().len() == 0,
                pids matches Some(v) ==> forall|x: usize| v@.contains(x) == gpids.contains(x),
                first_hit_from(self.files@, gpids, comps_view.last(), 0) == first_hit_from(
                    self.files@,
                    gpids,
                    comps_view.last(),
                    id as int,
                ),
                comps_view.last() == last@,
            decreases nfiles - id,
        {
            let in_pids = match &pids {
                Some(v) => contains_usize(v, id),
                None => true,
            };
            proof {
                assert(in_pids == gpids.contains(id));
            }
            let hit = if in_pids {
                let b = basename(self.files[id].source.as_str());
                string_eq(&b, &last)
            } else {
                false
            };
            proof {
                if hit {
                    assert(file_hit(self.files@, gpids, comps_view.last(), id as int));
                    assert(first_hit_from(self.files@, gpids, comps_view.last(), id as int)
                        == id as int);
                } else {
                    assert(!file_hit(self.files@, gpids, comps_view.last(), id as int));
                    assert(first_hit_from(self.files@, gpids, comps_view.last(), id as int)
                        == first_hit_from(self.files@, gpids, comps_view.last(), id + 1));
                }
            }
            if hit {
                return LookupResult::File(self.files[id].source.clone());
            }
            id = id + 1;
        }
        LookupResult::Missing
    }

    /// The position of the first entry sharing the tag's key, or the number
    /// of entries when the key is new.
    fn find_key(&self, t: &Tag) -> (r: usize)
        ensures
            r as int == first_key_from(tags_model(self.tags@), *t, 0),
            r <= self.tags@.len(),
    {
        let ghost m = tags_model(self.tags@);
        let mut i: usize = 0;
        while i < self.tags.len()
            invariant
                i <= self.tags@.len(),
                m == tags_model(self.tags@),
                first_key_from(m, *t, 0) == first_key_from(m, *t, i as int),
                forall|j: int| 0 <= j < i ==> !m[j].0.same_key(*t),
            decreases self.tags@.len() - i,
        {
            if self.tags[i].tag.key_eq(t) {
                proof {
                    assert(m[i as int].0 == self.tags@[i as int].tag);
                }
                return i;
            }
            proof {
                assert(m[i as int].0 == self.tags@[i as int].tag);
            }
            i = i + 1;
        }
        self.tags.len()
    }
}

} // verus!
