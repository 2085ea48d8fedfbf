//! How the embedded web client answers a path.
//!
//! Paths that belong to the server are never answered with the app: a
//! misspelled API route must be a JSON 404, not a page of HTML that the
//! client then fails to parse. Hashed assets are cached forever; everything
//! else is revalidated, so an upgrade never boots against stale assets.
use crate::hex::chars_of;
use crate::source::{has_prefix, string_of, sub_chars};
use crate::text::{push_str, str_eq};
use vstd::prelude::*;

verus! {

/// Assets under this prefix carry a content hash in the file name.
pub const IMMUTABLE_PREFIX: &'static str = "_app/immutable/";

pub const ONE_YEAR: &'static str = "public, max-age=31536000, immutable";

pub const NO_CACHE: &'static str = "no-cache";

/// `s` without its leading slashes.
pub open spec fn strip_leading_slashes(s: Seq<char>) -> Seq<char>
    decreases s.len(),
{
    if s.len() > 0 && s[0] == '/' {
        strip_leading_slashes(s.skip(1))
    } else {
        s
    }
}

/// The asset a request path asks for: the path without leading slashes,
/// or the entry point for the root.
pub open spec fn asset_path_spec(uri_path: Seq<char>) -> Seq<char> {
    let p = strip_leading_slashes(uri_path);
    if p.len() == 0 {
        "index.html"@
    } else {
        p
    }
}

proof fn lemma_strip_skip(s: Seq<char>, k: int)
    requires
        0 <= k <= s.len(),
        forall|j: int| 0 <= j < k ==> s[j] == '/',
    ensures
        strip_leading_slashes(s) == strip_leading_slashes(s.skip(k)),
    decreases k,
{
    if k > 0 {
        assert(s.skip(1).skip(k - 1) =~= s.skip(k));
        lemma_strip_skip(s.skip(1), k - 1);
    } else {
        assert(s.skip(0) =~= s);
    }
}

/// The asset path for a request.
pub fn asset_path(uri_path: &str) -> (p: String)
    ensures
        p@ == asset_path_spec(uri_path@),
{
    let c = chars_of(uri_path);
    let mut k: usize = 0;
    while k < c.len() && c[k] == '/'
        invariant
            k <= c@.len(),
            forall|j: int| 0 <= j < k ==> c@[j] == '/',
        decreases c@.len() - k,
    {
        k = k + 1;
    }
    proof {
        lemma_strip_skip(c@, k as int);
        assert(strip_leading_slashes(c@.skip(k as int)) == c@.skip(k as int));
    }
    if k == c.len() {
        proof {
            assert(c@.skip(k as int).len() == 0);
        }
        return "index.html".to_owned();
    }
    let rest = sub_chars(c.as_slice(), k, c.len());
    proof {
        assert(rest@ =~= c@.skip(k as int));
    }
    string_of(rest.as_slice())
}

/// Whether an asset path belongs to the server rather than the client:
/// anything under `api/`, and the `healthz` and `readyz` endpoints with
/// anything under them. A longer name such as `readyz2` is a client route.
pub open spec fn is_reserved_spec(path: Seq<char>) -> bool {
    ||| has_prefix(path, "api/"@)
    ||| path == "healthz"@
    ||| has_prefix(path, "healthz/"@)
    ||| path == "readyz"@
    ||| has_prefix(path, "readyz/"@)
}

fn starts_with_str(s: &str, p: &str) -> (b: bool)
    ensures
        b == has_prefix(s@, p@),
{
    let c = chars_of(s);
    let q = chars_of(p);
    if q.len() > c.len() {
        return false;
    }
    let mut i: usize = 0;
    while i < q.len()
        invariant
            c@ == s@,
            q@ == p@,
            q@.len() <= c@.len(),
            i <= q@.len(),
            forall|j: int| 0 <= j < i ==> c@[j] == q@[j],
        decreases q@.len() - i,
    {
        if c[i] != q[i] {
            return false;
        }
        i = i + 1;
    }
    proof {
        assert(c@.take(q@.len() as int) =~= q@);
    }
    true
}

pub fn is_reserved(path: &str) -> (b: bool)
    ensures
        b == is_reserved_spec(path@),
{
    starts_with_str(path, "api/") || str_eq(path, "healthz") || starts_with_str(path, "healthz/") || str_eq(
        path,
        "readyz",
    ) || starts_with_str(path, "readyz/")
}

/// The body of the JSON 404 for a reserved path.
pub fn not_found_message(path: &str) -> (m: String)
    ensures
        m@ == "no such endpoint: /"@ + path@,
{
    let mut m = String::new();
    push_str(&mut m, "no such endpoint: /");
    push_str(&mut m, path);
    m
}

/// The `Cache-Control` an asset is served with.
pub fn cache_control(path: &str) -> (c: &'static str)
    ensures
        c@ == (if has_prefix(path@, IMMUTABLE_PREFIX@) { ONE_YEAR@ } else { NO_CACHE@ }),
{
    if starts_with_str(path, IMMUTABLE_PREFIX) {
        ONE_YEAR
    } else {
        NO_CACHE
    }
}

/// The MIME type `mime_guess` assigns to a path by its extension.
pub uninterp spec fn guessed_mime(path: Seq<char>) -> Seq<char>;

/// `mime_guess::from_path(path).first_or_octet_stream()`, as text. The crate
/// looks only at the path's extension and performs no disk access, so the
/// result is a function of the path; which type each extension maps to is
/// the crate's table and is not stated here.
#[verifier::external_body]
fn mime_type(path: &str) -> (m: String)
    ensures
        m@ == guessed_mime(path@),
{
    mime_guess::from_path(path).first_or_octet_stream().as_ref().to_string()
}

/// The headers an embedded asset is served with: its type and its caching.
pub fn asset_headers(path: &str) -> (h: (String, &'static str))
    ensures
        h.0@ == guessed_mime(path@),
        h.1@ == (if has_prefix(path@, IMMUTABLE_PREFIX@) { ONE_YEAR@ } else { NO_CACHE@ }),
{
    (mime_type(path), cache_control(path))
}

} // verus!
