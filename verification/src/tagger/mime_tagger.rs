//! The MIME tagger: one singleton `mime` tag from an injectable extractor.

use vstd::prelude::*;

use crate::strutil::replace_char;
use crate::tagger::{Error, Tag, Tagger};

verus! {

/// Extracts a MIME description for a file, or nothing when the file cannot
/// be classified. Implementations typically read the file; nothing is
/// assumed of their outcomes.
pub trait MimeExtractor: Sized {
    fn new() -> Self;

    fn file(&self, filename: &str) -> Option<String>;
}

/// Tags files with their MIME type, as reported by an extractor.
#[derive(Debug)]
pub struct MimeTagger<T> {
    pub mime_extractor: T,
}

/// The one tag emitted for a MIME description: labelled `mime`, singleton,
/// its value the description with `/` replaced by `|` so that it can stand
/// as a single path component.
pub open spec fn mime_tag_ok(t: Tag, mime: Seq<char>) -> bool {
    &&& t.label_view() == Some("mime"@)
    &&& t.spec_is_singleton()
    &&& t.value@ == mime.map_values(|c: char| if c == '/' { '|' } else { c })
    &&& t.wf()
}

/// The tag set for a successfully extracted MIME description.
pub fn mime_tags_from(mime: &String) -> (v: Vec<Tag>)
    ensures
        v@.len() == 1,
        mime_tag_ok(v@[0], mime@),
{
    let value = replace_char(mime.as_str(), '/', '|');
    let t = Tag::new("mime", true, value.as_str());
    let mut v: Vec<Tag> = Vec::new();
    v.push(t);
    v
}

/// The view of an optional extractor answer.
pub open spec fn opt_str_view(o: Option<String>) -> Option<Seq<char>> {
    match o {
        Some(s) => Some(s@),
        None => None,
    }
}

/// The reply an extractor outcome determines: the one `mime` tag of the
/// description when there is one, `Illegible` when there is none.
pub open spec fn mime_reply_ok(ext: Option<Seq<char>>, r: Result<Vec<Tag>, Error>) -> bool {
    match ext {
        Some(m) => r matches Ok(v) && v@.len() == 1 && mime_tag_ok(v@[0], m),
        None => r == Err::<Vec<Tag>, Error>(Error::Illegible),
    }
}

/// Maps an extractor outcome to the MIME-tagger reply.
pub fn mime_reply(ext: Option<String>) -> (r: Result<Vec<Tag>, Error>)
    ensures
        mime_reply_ok(opt_str_view(ext), r),
{
    match ext {
        Some(mime) => Ok(mime_tags_from(&mime)),
        None => Err(Error::Illegible),
    }
}

impl<T: MimeExtractor> MimeTagger<T> {
    pub fn new() -> (r: Self) {
        MimeTagger { mime_extractor: T::new() }
    }

    /// The MIME tags of a path: the reply `mime_reply_ok` fixes for
    /// whatever the extractor answered.
    pub fn mime_tags(&self, path: &str) -> (r: Result<Vec<Tag>, Error>)
        ensures
            exists|m: Option<Seq<char>>| mime_reply_ok(m, r),
    {
        let ext = self.mime_extractor.file(path);
        let ghost gext = opt_str_view(ext);
        let r = mime_reply(ext);
        proof {
            assert(mime_reply_ok(gext, r));
        }
        r
    }
}

impl<T: MimeExtractor> Tagger for MimeTagger<T> {
    fn tag(&self, path: &str) -> Result<Vec<Tag>, Error> {
        self.mime_tags(path)
    }
}

} // verus!
