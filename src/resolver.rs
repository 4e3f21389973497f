//! Decisions of the asset resolver: which URL to fetch, where the fetched
//! bytes go, what a document records for the outcome, and the permit pool
//! that bounds how many fetches are in flight.

use vstd::prelude::*;
use regex::Regex;
use crate::naming::{dead_link, dead_link_of};

verus! {

/// What `regex::Regex::replace_all` gives for `text` with every match of
/// `pattern` replaced by `replacement` (where `$1` stands for the first
/// group); `None` where `pattern` is not a valid expression.
pub uninterp spec fn regex_replaced(pattern: Seq<char>, text: Seq<char>, replacement: Seq<char>) -> Option<Seq<char>>;

/// What `mime2ext::mime2ext` gives as the file extension of a content type.
pub uninterp spec fn mime_extension(content_type: Seq<char>) -> Option<Seq<char>>;

/// What `pathdiff::diff_paths` gives as `path` relative to `base`.
pub uninterp spec fn relative_path_of(path: Seq<char>, base: Seq<char>) -> Option<Seq<char>>;

/// Relies on `regex::Regex::new` and `Regex::replace_all`: the result depends
/// on the three strings alone.
#[verifier::external_body]
fn regex_replace_all(pattern: &str, text: &str, replacement: &str) -> (r: Option<String>)
    ensures
        r.deep_view() == regex_replaced(pattern@, text@, replacement@),
{
    Regex::new(pattern).ok().map(|re| re.replace_all(text, replacement).into_owned())
}

/// Relies on `mime2ext::mime2ext`: the extension registered for a content type.
#[verifier::external_body]
pub fn extension_for(content_type: &str) -> (r: Option<String>)
    ensures
        r.deep_view() == mime_extension(content_type@),
{
    mime2ext::mime2ext(content_type).map(|e| e.to_string())
}

/// Relies on `pathdiff::diff_paths`: `path` relative to `base`, read as text.
#[verifier::external_body]
pub fn relative_path(path: &str, base: &str) -> (r: Option<String>)
    ensures
        r.deep_view() == relative_path_of(path@, base@),
{
    pathdiff::diff_paths(path, base).map(|p| p.to_string_lossy().to_string())
}

/// `url` with each `ipfs://<hash>` rewritten to the HTTP gateway.
pub open spec fn gatewayed(url: Seq<char>) -> Seq<char> {
    match regex_replaced(
        "ipfs://([a-zA-Z0-9]+)"@,
        url,
        "https://ipfs.crossbell.io/ipfs/${1}"@,
    ) {
        Some(t) => t,
        None => url,
    }
}

/// The URL to fetch for an asset reference: its gateway form, or `None`
/// where that is empty and there is nothing to fetch.
pub fn fetch_url(url: &str) -> (r: Option<String>)
    ensures
        r.deep_view() == if gatewayed(url@).len() == 0 {
            None
        } else {
            Some(gatewayed(url@))
        },
{
    let g = match regex_replace_all(
        "ipfs://([a-zA-Z0-9]+)",
        url,
        "https://ipfs.crossbell.io/ipfs/${1}",
    ) {
        Some(t) => t,
        None => url.to_owned(),
    };
    if g.as_str().is_empty() {
        None
    } else {
        Some(g)
    }
}

/// `<stem>.<ext>`.
pub open spec fn with_extension(stem: Seq<char>, ext: Seq<char>) -> Seq<char> {
    stem + seq!['.'] + ext
}

/// The file that a fetched asset is written to: the stem with the extension
/// of the response's content type; `None` where the response declared none,
/// or one with no known extension, which makes the fetch a failure.
pub fn download_target(stem: &str, content_type: Option<&str>) -> (r: Option<String>)
    ensures
        r.deep_view() == match content_type {
            Some(ct) => match mime_extension(ct@) {
                Some(ext) => Some(with_extension(stem@, ext)),
                None => None,
            },
            None => None,
        },
{
    let ct = match content_type {
        Some(ct) => ct,
        None => return None,
    };
    match extension_for(ct) {
        Some(ext) => {
            let mut out = stem.to_owned();
            out.append(".");
            out.append(ext.as_str());
            proof {
                reveal_strlit(".");
            }
            assert(out@ =~= with_extension(stem@, ext@));
            Some(out)
        },
        None => None,
    }
}

/// What a document records for a fetched asset: the stored file's path
/// relative to the output root where the fetch succeeded, else the
/// dead-link marker for the URL as the document gave it.
pub fn resolve_outcome(url: &str, stored: Option<&str>, output: &str) -> (r: String)
    ensures
        r@ == match stored {
            Some(p) => match relative_path_of(p@, output@) {
                Some(rel) => rel,
                None => dead_link_of(url@),
            },
            None => dead_link_of(url@),
        },
{
    match stored {
        Some(p) => match relative_path(p, output) {
            Some(rel) => rel,
            None => dead_link(url),
        },
        None => dead_link(url),
    }
}

/// A pool of fetch permits shared by a whole run.
pub struct FetchPool {
    pub capacity: usize,
    pub in_flight: usize,
}

/// The number of permits that a run's pool holds.
pub const FETCH_PERMITS: usize = 8;

impl FetchPool {
    /// No more fetches are in flight than there are permits.
    pub open spec fn wf(&self) -> bool {
        self.in_flight <= self.capacity
    }

    /// A pool of `capacity` permits, none taken.
    pub fn new(capacity: usize) -> (r: FetchPool)
        ensures
            r.wf(),
            r.capacity == capacity,
            r.in_flight == 0,
    {
        FetchPool { capacity, in_flight: 0 }
    }

    /// Takes a permit if one is free; a fetch may start only on `true`.
    pub fn try_acquire(&mut self) -> (r: bool)
        requires
            old(self).wf(),
        ensures
            final(self).wf(),
            r == (old(self).in_flight < old(self).capacity),
            final(self).capacity == old(self).capacity,
            final(self).in_flight == if r { old(self).in_flight + 1 } else { old(self).in_flight as int },
    {
        if self.in_flight < self.capacity {
            self.in_flight = self.in_flight + 1;
            true
        } else {
            false
        }
    }

    /// Gives back the permit of a finished fetch, whatever its outcome.
    pub fn release(&mut self)
        requires
            old(self).wf(),
            old(self).in_flight > 0,
        ensures
            final(self).wf(),
            final(self).capacity == old(self).capacity,
            final(self).in_flight == old(self).in_flight - 1,
    {
        self.in_flight = self.in_flight - 1;
    }
}

} // verus!
