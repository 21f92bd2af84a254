//! The tag model: a tag is an optionally labelled value with a derived
//! display form used as its directory name, plus the tagger interface.

use vstd::prelude::*;

use crate::strutil::string_eq;

mod meta_tagger;
mod mime_tagger;

pub use meta_tagger::{datetime_display, meta_reply, metadata_tags, MetadataTagger};
pub use mime_tagger::{mime_reply, mime_tags_from, MimeExtractor, MimeTagger};

verus! {

/// The separator between a label and a value in a tag's display form.
pub const TAG_SEPARATOR: &'static str = ":";

/// A tagger that cannot classify a file reports it as illegible; its
/// contribution is discarded and other taggers still apply.
#[derive(Debug, PartialEq, Eq, Clone, Copy, Structural)]
pub enum Error {
    Illegible,
}

/// The label part of a labelled tag. A singleton label admits at most one
/// value of that label along any virtual path.
#[derive(Debug, PartialEq, Eq, Hash, Clone)]
pub struct TagLabel {
    pub label: String,
    pub singleton: bool,
}

/// A tag: an optional label, a value, and the display form used as the
/// tag's directory name. Two tags are equal iff their (label, value)
/// pairs match; the singleton flag is a property of the label, not part
/// of the key.
#[derive(Debug, Clone)]
pub struct Tag {
    pub label: Option<TagLabel>,
    pub value: String,
    pub display: String,
}

/// The display form a well-formed tag must carry: `label`, the separator
/// and the value when labelled, the bare value otherwise.
pub open spec fn spec_display(label: Option<Seq<char>>, value: Seq<char>) -> Seq<char> {
    match label {
        Some(l) => l + seq![':'] + value,
        None => value,
    }
}

impl Tag {
    /// The label text, if any.
    pub open spec fn label_view(self) -> Option<Seq<char>> {
        match self.label {
            Some(l) => Some(l.label@),
            None => None,
        }
    }

    /// Whether the display field agrees with the label and value.
    pub open spec fn wf(self) -> bool {
        self.display@ == spec_display(self.label_view(), self.value@)
    }

    pub open spec fn spec_is_singleton(self) -> bool {
        match self.label {
            Some(l) => l.singleton,
            None => false,
        }
    }

    /// Whether two tags are the same key: same label text and same value.
    /// The singleton flag does not distinguish keys, so where the same
    /// (label, value) pair arrives with both flags, the first occurrence
    /// decides which flag the key carries.
    pub open spec fn same_key(self, other: Tag) -> bool {
        &&& self.label_view() == other.label_view()
        &&& self.value@ == other.value@
    }

    /// A labelled tag; its display form is `label`, the separator, then the
    /// value.
    pub fn new(label: &str, singleton: bool, value: &str) -> (t: Tag)
        ensures
            t.label_view() == Some(label@),
            t.spec_is_singleton() == singleton,
            t.value@ == value@,
            t.wf(),
    {
        let mut display = String::from_str(label);
        display.append(":");
        display.append(value);
        proof {
            reveal_strlit(":");
            assert(":"@ =~= seq![':']);
        }
        Tag {
            label: Some(TagLabel { label: String::from_str(label), singleton }),
            value: String::from_str(value),
            display,
        }
    }

    /// An unlabelled tag; its display form is the value itself.
    pub fn from(value: &str) -> (t: Tag)
        ensures
            t.label_view() == None::<Seq<char>>,
            !t.spec_is_singleton(),
            t.value@ == value@,
            t.wf(),
    {
        Tag { label: None, value: String::from_str(value), display: String::from_str(value) }
    }

    /// The display form of the tag, as it appears in paths.
    pub fn as_os_str(&self) -> (r: &str)
        ensures
            r@ == self.display@,
    {
        self.display.as_str()
    }

    pub fn is_singleton(&self) -> (r: bool)
        ensures
            r == self.spec_is_singleton(),
    {
        match &self.label {
            Some(l) => l.singleton,
            None => false,
        }
    }

    /// The label of a labelled tag.
    pub fn label(&self) -> (r: &String)
        requires
            self.label is Some,
        ensures
            Some(r@) == self.label_view(),
    {
        match &self.label {
            Some(l) => &l.label,
            None => unreached(),
        }
    }

    /// Whether the display field agrees with the label and value, checked
    /// at run time, so that callers outside the proof can guard the
    /// well-formedness the index requires of its tags.
    pub fn check_wf(&self) -> (r: bool)
        ensures
            r == self.wf(),
    {
        match &self.label {
            Some(lab) => {
                let mut expected = String::from_str(lab.label.as_str());
                expected.append(":");
                expected.append(self.value.as_str());
                proof {
                    reveal_strlit(":");
                    assert(":"@ =~= seq![':']);
                }
                string_eq(&expected, &self.display)
            },
            None => string_eq(&self.value, &self.display),
        }
    }

    /// Whether two tags are the same key.
    pub fn key_eq(&self, other: &Tag) -> (r: bool)
        ensures
            r == self.same_key(*other),
    {
        let labels_match = match (&self.label, &other.label) {
            (Some(a), Some(b)) => string_eq(&a.label, &b.label),
            (None, None) => true,
            _ => false,
        };
        labels_match && string_eq(&self.value, &other.value)
    }
}

impl PartialEq for Tag {
    /// Tags compare equal iff their (label, value) pairs match.
    fn eq(&self, other: &Tag) -> (r: bool) {
        self.key_eq(other)
    }
}

impl vstd::std_specs::cmp::PartialEqSpecImpl for Tag {
    open spec fn obeys_eq_spec() -> bool {
        true
    }

    open spec fn eq_spec(&self, other: &Tag) -> bool {
        self.same_key(*other)
    }
}

/// A source of tags for a file. Implementations inspect the file however
/// they like; an `Err(Error::Illegible)` result is discarded by the caller
/// and must not prevent other taggers from contributing.
pub trait Tagger {
    fn tag(&self, path: &str) -> Result<Vec<Tag>, Error>;
}

/// Merges the outcomes of several taggers into one tag set: illegible
/// results are dropped, and duplicate keys keep their first occurrence.
pub open spec fn spec_merge(results: Seq<Result<Seq<Tag>, Error>>) -> Seq<Tag>
    decreases results.len(),
{
    if results.len() == 0 {
        Seq::<Tag>::empty()
    } else {
        let rest = spec_merge(results.drop_last());
        match results.last() {
            Ok(ts) => merge_into(rest, ts),
            Err(_) => rest,
        }
    }
}

/// Appends the tags of one tagger to an accumulated set, skipping keys
/// already present.
pub open spec fn merge_into(acc: Seq<Tag>, ts: Seq<Tag>) -> Seq<Tag>
    decreases ts.len(),
{
    if ts.len() == 0 {
        acc
    } else {
        let prev = merge_into(acc, ts.drop_last());
        if exists|k: int| 0 <= k < prev.len() && prev[k].same_key(ts.last()) {
            prev
        } else {
            prev.push(ts.last())
        }
    }
}

/// Whether a tag with the same key is already in the list.
fn key_present(acc: &Vec<Tag>, t: &Tag) -> (r: bool)
    ensures
        r == exists|k: int| 0 <= k < acc@.len() && acc@[k].same_key(*t),
{
    let mut i: usize = 0;
    while i < acc.len()
        invariant
            i <= acc.len(),
            forall|k: int| 0 <= k < i ==> !acc@[k].same_key(*t),
        decreases acc.len() - i,
    {
        if acc[i].key_eq(t) {
            return true;
        }
        i = i + 1;
    }
    false
}

/// The views of a list of tagger outcomes.
pub open spec fn results_model(rs: Seq<Result<Vec<Tag>, Error>>) -> Seq<Result<Seq<Tag>, Error>> {
    rs.map_values(
        |r: Result<Vec<Tag>, Error>|
            match r {
                Ok(v) => Ok::<Seq<Tag>, Error>(v@),
                Err(e) => Err::<Seq<Tag>, Error>(e),
            },
    )
}

/// The union of the successful tagger outcomes, in order, first occurrence
/// of each key kept; illegible outcomes contribute nothing.
pub fn merge_tag_results(results: Vec<Result<Vec<Tag>, Error>>) -> (r: Vec<Tag>)
    ensures
        r@ == spec_merge(results_model(results@)),
{
    let ghost model = results_model(results@);
    let mut acc: Vec<Tag> = Vec::new();
    let mut i: usize = 0;
    while i < results.len()
        invariant
            i <= results@.len(),
            model == results_model(results@),
            model.len() == results@.len(),
            acc@ == spec_merge(model.take(i as int)),
        decreases results@.len() - i,
    {
        proof {
            assert(model.take(i + 1).drop_last() =~= model.take(i as int));
            assert(model.take(i + 1).last() == model[i as int]);
        }
        match &results[i] {
            Ok(ts) => {
                let ghost ts_view = ts@;
                let mut j: usize = 0;
                while j < ts.len()
                    invariant
                        j <= ts@.len(),
                        ts_view == ts@,
                        acc@ == merge_into(spec_merge(model.take(i as int)), ts@.take(j as int)),
                    decreases ts@.len() - j,
                {
                    proof {
                        assert(ts_view.take(j + 1).drop_last() =~= ts_view.take(j as int));
                        assert(ts_view.take(j + 1).last() == ts_view[j as int]);
                    }
                    if !key_present(&acc, &ts[j]) {
                        let t = clone_tag(&ts[j]);
                        acc.push(t);
                    }
                    j = j + 1;
                }
                proof {
                    assert(ts_view.take(ts_view.len() as int) =~= ts_view);
                }
            },
            Err(_) => {},
        }
        i = i + 1;
    }
    proof {
        assert(model.take(model.len() as int) =~= model);
    }
    acc
}

/// A copy of a tag, field by field.
pub fn clone_tag(t: &Tag) -> (r: Tag)
    ensures
        r == *t,
{
    Tag {
        label: match &t.label {
            Some(l) => Some(TagLabel { label: l.label.clone(), singleton: l.singleton }),
            None => None,
        },
        value: t.value.clone(),
        display: t.display.clone(),
    }
}

} // verus!
