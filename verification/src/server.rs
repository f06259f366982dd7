//! Request-level rules of the HTTP server that do not depend on the
//! framework: which embedded asset a path names, and setting defaults.
use vstd::prelude::*;
use crate::text::{chars_of, string_of_range};

verus! {

/// `s` without its leading `/` characters (`str::trim_start_matches('/')`).
pub open spec fn strip_leading_slashes(s: Seq<char>) -> Seq<char>
    decreases s.len(),
{
    if s.len() > 0 && s[0] == '/' {
        strip_leading_slashes(s.drop_first())
    } else {
        s
    }
}

/// The embedded asset that a request path names: the path without leading
/// slashes, and `index.html` for the root.
pub open spec fn asset_path_of(uri_path: Seq<char>) -> Seq<char> {
    let p = strip_leading_slashes(uri_path);
    if p.len() == 0 {
        "index.html"@
    } else {
        p
    }
}

proof fn lemma_strip_leading_slashes_at(s: Seq<char>, i: int)
    requires
        0 <= i <= s.len(),
        forall|j: int| 0 <= j < i ==> #[trigger] s[j] == '/',
        i == s.len() || s[i] != '/',
    ensures
        strip_leading_slashes(s) == s.subrange(i, s.len() as int),
    decreases i,
{
    if i == 0 {
        assert(s.subrange(0, s.len() as int) == s);
    } else {
        let t = s.drop_first();
        assert forall|j: int| 0 <= j < i - 1 implies #[trigger] t[j] == '/' by {
            assert(t[j] == s[j + 1]);
        }
        if i < s.len() {
            assert(t[i - 1] == s[i]);
        }
        lemma_strip_leading_slashes_at(t, i - 1);
        assert(t.subrange(i - 1, t.len() as int) == s.subrange(i, s.len() as int));
    }
}

/// The embedded asset that the request path `uri_path` names (see `asset_path_of`).
pub fn asset_path(uri_path: &str) -> (r: String)
    ensures
        r@ == asset_path_of(uri_path@),
{
    let cs = chars_of(uri_path);
    let mut i: usize = 0;
    while i < cs.len() && cs[i] == '/'
        invariant
            i <= cs@.len(),
            forall|j: int| 0 <= j < i ==> #[trigger] cs@[j] == '/',
        decreases cs.len() - i,
    {
        i = i + 1;
    }
    proof {
        lemma_strip_leading_slashes_at(cs@, i as int);
    }
    if i == cs.len() {
        "index.html".to_owned()
    } else {
        string_of_range(&cs, i, cs.len())
    }
}

/// What `mime_guess::from_path(path).first_or_octet_stream()` gives for
/// `path`: the first MIME type known for its extension, or
/// `application/octet-stream`.
pub uninterp spec fn guessed_mime(path: Seq<char>) -> Seq<char>;

/// `mime_guess::from_path(path).first_or_octet_stream()`: guesses a MIME type
/// from the extension of `path` alone, with no disk access. Claimed: the
/// result, as text, is that guess for `path` and nothing else (`guessed_mime`
/// names it).
#[verifier::external_body]
pub(crate) fn mime_type_of(path: &str) -> (r: String)
    ensures
        r@ == guessed_mime(path@),
{
    mime_guess::from_path(path).first_or_octet_stream().as_ref().to_string()
}

/// How a request for a static file is answered.
pub enum StaticReply {
    /// The embedded asset that the path names, with this content type.
    Asset { content_type: String },
    /// The single-page app's `index.html`, as `text/html`.
    Index,
    /// `404 Not Found`.
    NotFound,
}

/// Chooses the answer to a static-file request for `uri_path`, given whether
/// the asset it names (see `asset_path`) and `index.html` are embedded: the
/// asset with the MIME type guessed from its path; else `index.html`, so the
/// single-page app handles the route; else 404.
pub fn static_reply(uri_path: &str, asset_found: bool, index_found: bool) -> (r: StaticReply)
    ensures
        asset_found ==> (r matches StaticReply::Asset { content_type } && content_type@ == guessed_mime(
            asset_path_of(uri_path@),
        )),
        !asset_found && index_found ==> r is Index,
        !asset_found && !index_found ==> r is NotFound,
{
    if asset_found {
        let path = asset_path(uri_path);
        let content_type = mime_type_of(path.as_str());
        StaticReply::Asset { content_type }
    } else if index_found {
        StaticReply::Index
    } else {
        StaticReply::NotFound
    }
}

/// The UTC offset the history view uses: the stored one, or `-4` when none
/// is stored (or it could not be read).
pub fn utc_offset_or_default(stored: Option<String>) -> (r: String)
    ensures
        r@ == (match stored { Some(v) => v@, None => "-4"@ }),
{
    match stored {
        Some(v) => v,
        None => "-4".to_owned(),
    }
}

} // verus!
