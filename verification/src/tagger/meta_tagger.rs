//! The metadata tagger: a singleton `size` tag and, when the modified time
//! is representable, a singleton `modified` tag with a zero-padded
//! `YYYY-MM-DD HH:MM:SS` timestamp.

use vstd::prelude::*;

use crate::errno::OsError;
use crate::filesystem::libc_wrappers::{FileStat, LibcWrapper, S_IFMT, S_IFREG};
use crate::strutil::{
    i64_to_u64_wrap, spec_dec, spec_pad2, spec_pad4, u64_to_dec, u64_to_pad2, u64_to_pad4,
    wrap_u64,
};
use crate::tagger::{Error, Tag, Tagger};

verus! {

/// The civil date (year, month, day) of the day holding a Unix timestamp,
/// in the proleptic Gregorian calendar, or nothing when the timestamp is
/// out of the supported range.
pub uninterp spec fn civil_date_of(secs: int) -> Option<(int, int, int)>;

/// Relies on `time::OffsetDateTime::from_unix_timestamp` and its component
/// accessors: the civil date is a function of the timestamp alone, and the
/// clock components are the timestamp's remainder within its day, as that
/// function's source computes them.
#[verifier::external_body]
fn civil_datetime(secs: i64) -> (r: Option<(i32, u8, u8, u8, u8, u8)>)
    ensures
        r is Some <==> civil_date_of(secs as int) is Some,
        r matches Some(p) ==> {
            &&& Some((p.0 as int, p.1 as int, p.2 as int)) == civil_date_of(secs as int)
            &&& p.3 as int == (secs as int) % 86400 / 3600
            &&& p.4 as int == (secs as int) % 86400 % 3600 / 60
            &&& p.5 as int == (secs as int) % 86400 % 60
        },
{
    match time::OffsetDateTime::from_unix_timestamp(secs) {
        Ok(t) => Some((t.year(), t.month() as u8, t.day(), t.hour(), t.minute(), t.second())),
        Err(_) => None,
    }
}

/// The display text of a timestamp: zero-padded `YYYY-MM-DD HH:MM:SS`, for
/// timestamps whose year the four-digit form can carry.
pub open spec fn spec_datetime_display(secs: int) -> Option<Seq<char>> {
    match civil_date_of(secs) {
        Some(ymd) => if 0 <= ymd.0 <= 9999 {
            Some(
                spec_pad4(ymd.0) + seq!['-'] + spec_pad2(ymd.1) + seq!['-'] + spec_pad2(ymd.2)
                    + seq![' '] + spec_pad2(secs % 86400 / 3600) + seq![':'] + spec_pad2(
                    secs % 86400 % 3600 / 60,
                ) + seq![':'] + spec_pad2(secs % 86400 % 60),
            )
        } else {
            None
        },
        None => None,
    }
}

/// Renders a timestamp for the `modified` tag: the calendar date from the
/// trusted civil-date call, the time of day computed and padded here.
pub fn datetime_display(secs: i64) -> (r: Option<String>)
    ensures
        r matches Some(s) ==> spec_datetime_display(secs as int) == Some(s@),
        r is Some <==> spec_datetime_display(secs as int) is Some,
{
    match civil_datetime(secs) {
        Some(p) => {
            if p.0 < 0 || p.0 > 9999 {
                None
            } else {
                proof {
                    reveal_strlit("-");
                    reveal_strlit(" ");
                    reveal_strlit(":");
                    assert("-"@ =~= seq!['-']);
                    assert(" "@ =~= seq![' ']);
                    assert(":"@ =~= seq![':']);
                }
                let mut s = u64_to_pad4(p.0 as u64);
                s.append("-");
                s.append(u64_to_pad2(p.1 as u64).as_str());
                s.append("-");
                s.append(u64_to_pad2(p.2 as u64).as_str());
                s.append(" ");
                s.append(u64_to_pad2(p.3 as u64).as_str());
                s.append(":");
                s.append(u64_to_pad2(p.4 as u64).as_str());
                s.append(":");
                s.append(u64_to_pad2(p.5 as u64).as_str());
                Some(s)
            }
        },
        None => None,
    }
}

/// The `size` tag of a file: labelled `size`, singleton, decimal byte count.
pub open spec fn size_tag_ok(t: Tag, size: int) -> bool {
    &&& t.label_view() == Some("size"@)
    &&& t.spec_is_singleton()
    &&& t.value@ == spec_dec(size)
    &&& t.wf()
}

/// The `modified` tag of a file: labelled `modified`, singleton, the
/// timestamp display text.
pub open spec fn modified_tag_ok(t: Tag, secs: int) -> bool {
    &&& t.label_view() == Some("modified"@)
    &&& t.spec_is_singleton()
    &&& Some(t.value@) == spec_datetime_display(secs)
    &&& t.wf()
}

/// The tag set of a regular file with the given size and modified time:
/// the `size` tag always, the `modified` tag whenever the timestamp is
/// representable.
pub fn metadata_tags(size: u64, mtime_secs: i64) -> (v: Vec<Tag>)
    ensures
        v@.len() >= 1 && size_tag_ok(v@[0], size as int),
        spec_datetime_display(mtime_secs as int) is Some ==> v@.len() == 2 && modified_tag_ok(
            v@[1],
            mtime_secs as int,
        ),
        spec_datetime_display(mtime_secs as int) is None ==> v@.len() == 1,
{
    let mut v: Vec<Tag> = Vec::new();
    let dec = u64_to_dec(size);
    v.push(Tag::new("size", true, dec.as_str()));
    match datetime_display(mtime_secs) {
        Some(d) => {
            v.push(Tag::new("modified", true, d.as_str()));
        },
        None => {},
    }
    v
}

/// The metadata reply a stat outcome determines: `Illegible` for a failed
/// stat, the empty tag set for anything but a regular file, and for a
/// regular file the `size` tag (over the byte count, reinterpreted
/// unsigned) followed by the `modified` tag whenever the timestamp is
/// representable.
pub open spec fn meta_reply_ok(sr: Result<FileStat, OsError>, r: Result<Vec<Tag>, Error>) -> bool {
    match sr {
        Err(_) => r == Err::<Vec<Tag>, Error>(Error::Illegible),
        Ok(st) => {
            if st.st_mode & S_IFMT == S_IFREG {
                r matches Ok(v) && {
                    &&& v@.len() >= 1
                    &&& size_tag_ok(v@[0], wrap_u64(st.st_size as int))
                    &&& (spec_datetime_display(st.st_mtime as int) is Some ==> v@.len() == 2
                        && modified_tag_ok(v@[1], st.st_mtime as int))
                    &&& (spec_datetime_display(st.st_mtime as int) is None ==> v@.len() == 1)
                }
            } else {
                r matches Ok(v) && v@.len() == 0
            }
        },
    }
}

/// Maps a stat outcome from the shim to the metadata-tagger reply.
pub fn meta_reply(sr: Result<FileStat, OsError>) -> (r: Result<Vec<Tag>, Error>)
    ensures
        meta_reply_ok(sr, r),
{
    match sr {
        Err(_) => Err(Error::Illegible),
        Ok(st) => {
            if st.st_mode & S_IFMT == S_IFREG {
                Ok(metadata_tags(i64_to_u64_wrap(st.st_size), st.st_mtime))
            } else {
                Ok(Vec::new())
            }
        },
    }
}

/// Tags regular files with their size and modified time, read through the
/// syscall shim.
#[derive(Debug)]
pub struct MetadataTagger<T> {
    pub libc_wrapper: T,
}

impl<T: LibcWrapper> MetadataTagger<T> {
    pub fn new() -> (r: Self) {
        MetadataTagger { libc_wrapper: T::new() }
    }

    /// The metadata tags of a path: the reply `meta_reply_ok` fixes for
    /// whatever the shim's stat returned.
    pub fn metadata_tag(&self, path: &str) -> (r: Result<Vec<Tag>, Error>)
        ensures
            exists|sr: Result<FileStat, OsError>| meta_reply_ok(sr, r),
    {
        let sr = self.libc_wrapper.lstat(path);
        let ghost gsr = sr;
        let r = meta_reply(sr);
        proof {
            assert(meta_reply_ok(gsr, r));
        }
        r
    }
}

impl<T: LibcWrapper> Tagger for MetadataTagger<T> {
    fn tag(&self, path: &str) -> Result<Vec<Tag>, Error> {
        self.metadata_tag(path)
    }
}

} // verus!
