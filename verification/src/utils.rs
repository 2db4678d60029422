//! The inspector-URL rewrite and the token-expiry extraction.
//!
//! A distribution's download URL `scheme://host/p` is rewritten onto the
//! inspector host as `scheme://inspector.pypi.io/project/{name}/{version}/p/`;
//! the trailing slash lets a relative file path be appended directly. A URL
//! that already points into the inspector's project tree is left unchanged,
//! which makes the rewrite idempotent.

use vstd::prelude::*;
use vstd::string::{StrSliceExecFns, StringExecFns};
use crate::strutil::{append_str, push_char, seq_ends_with, str_ends_with, str_eq};

verus! {

/// `://` stands at position `i` of `url`.
pub open spec fn sep_at(url: Seq<char>, i: int) -> bool {
    0 <= i && i + 3 <= url.len() && url[i] == ':' && url[i + 1] == '/' && url[i + 2] == '/'
}

/// The first position at or after `i` where `://` stands, or -1.
pub open spec fn find_sep_from(url: Seq<char>, i: int) -> int
    recommends
        0 <= i,
    decreases url.len() - i,
{
    if i + 3 > url.len() {
        -1
    } else if sep_at(url, i) {
        i
    } else {
        find_sep_from(url, i + 1)
    }
}

/// The position of the `://` that separates the scheme from the host, or -1.
pub open spec fn sep_index(url: Seq<char>) -> int {
    find_sep_from(url, 0)
}

/// The first position at or after `i` holding `c`, or the length.
pub open spec fn find_char_from(s: Seq<char>, c: char, i: int) -> int
    recommends
        0 <= i,
    decreases s.len() - i,
{
    if i >= s.len() {
        s.len() as int
    } else if s[i] == c {
        i
    } else {
        find_char_from(s, c, i + 1)
    }
}

/// What `find_sep_from` finds is the first separator at or after `i`.
pub proof fn lemma_find_sep_props(url: Seq<char>, i: int)
    requires
        0 <= i,
    ensures
        find_sep_from(url, i) == -1 ==> (forall|j: int| i <= j ==> !sep_at(url, j)),
        find_sep_from(url, i) >= 0 ==> i <= find_sep_from(url, i) && sep_at(
            url,
            find_sep_from(url, i),
        ) && (forall|j: int| i <= j < find_sep_from(url, i) ==> !sep_at(url, j)),
    decreases url.len() - i,
{
    if i + 3 > url.len() {
        assert(forall|j: int| i <= j ==> !sep_at(url, j));
    } else if sep_at(url, i) {
    } else {
        lemma_find_sep_props(url, i + 1);
    }
}

/// A separator with none before it is what the search from 0 finds.
pub proof fn lemma_find_sep_first(url: Seq<char>, s: int, k: int)
    requires
        0 <= k <= s,
        sep_at(url, s),
        forall|j: int| k <= j < s ==> !sep_at(url, j),
    ensures
        find_sep_from(url, k) == s,
    decreases s - k,
{
    if k < s {
        lemma_find_sep_first(url, s, k + 1);
    }
}

/// What `find_char_from` finds is the first occurrence at or after `i`.
pub proof fn lemma_find_char_props(s: Seq<char>, c: char, i: int)
    requires
        0 <= i <= s.len(),
    ensures
        i <= find_char_from(s, c, i),
        find_char_from(s, c, i) <= s.len(),
        find_char_from(s, c, i) < s.len() ==> s[find_char_from(s, c, i)] == c,
        forall|j: int| i <= j < find_char_from(s, c, i) ==> s[j] != c,
    decreases s.len() - i,
{
    if i < s.len() && s[i] != c {
        lemma_find_char_props(s, c, i + 1);
    }
}

/// The URL already points into the inspector's project tree: right after its
/// scheme stand the inspector host and the project prefix.
pub open spec fn already_inspector(url: Seq<char>) -> bool {
    sep_index(url) >= 0 && sep_index(url) + 29 <= url.len() && url.subrange(
        sep_index(url),
        sep_index(url) + 29,
    ) == "://inspector.pypi.io/project/"@
}

/// The path part of the URL: everything from the first `/` after the host,
/// or empty when the URL has no path.
pub open spec fn url_path(url: Seq<char>) -> Seq<char>
    recommends
        sep_index(url) >= 0,
{
    url.subrange(find_char_from(url, '/', sep_index(url) + 3), url.len() as int)
}

/// The inspector URL of a package's file tree: the download URL's host is
/// replaced and its path is nested under `project/{name}/{version}`, with a
/// trailing slash. A URL without a scheme separator, or one already
/// rewritten, is returned unchanged.
pub open spec fn inspector_url_of(name: Seq<char>, version: Seq<char>, url: Seq<char>) -> Seq<
    char,
> {
    if sep_index(url) < 0 || already_inspector(url) {
        url
    } else {
        url.take(sep_index(url)) + "://inspector.pypi.io/project/"@ + name + seq!['/'] + version
            + url_path(url) + seq!['/']
    }
}

/// Find the scheme separator `://` of a URL string.
fn find_scheme_sep(s: &str) -> (r: Option<usize>)
    ensures
        match r {
            Some(i) => sep_index(s@) == i as int,
            None => sep_index(s@) == -1,
        },
{
    let n: usize = s.unicode_len();
    let mut i: usize = 0;
    while n - i >= 3
        invariant
            0 <= i,
            i <= n,
            n == s@.len(),
            sep_index(s@) == find_sep_from(s@, i as int),
        decreases n - i,
    {
        let a = s.get_char(i);
        let b = s.get_char(i + 1);
        let c = s.get_char(i + 2);
        if a == ':' && b == '/' && c == '/' {
            proof {
                assert(sep_at(s@, i as int));
            }
            return Some(i);
        }
        proof {
            assert(!sep_at(s@, i as int));
        }
        i = i + 1;
    }
    proof {
        assert(find_sep_from(s@, i as int) == -1);
    }
    None
}

/// Find the first occurrence of `c` at or after `start`; the length when
/// there is none.
fn find_char(s: &str, c: char, start: usize) -> (r: usize)
    requires
        start <= s@.len(),
    ensures
        r as int == find_char_from(s@, c, start as int),
        start <= r <= s@.len(),
{
    let n: usize = s.unicode_len();
    let mut i: usize = start;
    while i < n
        invariant
            start <= i <= n,
            n == s@.len(),
            find_char_from(s@, c, start as int) == find_char_from(s@, c, i as int),
        decreases n - i,
    {
        if s.get_char(i) == c {
            return i;
        }
        i = i + 1;
    }
    n
}

/// Turn a package name, version, and download URL into its inspector URL.
pub fn create_inspector_url(name: &str, version: &str, download_url: &str) -> (r: String)
    ensures
        r@ == inspector_url_of(name@, version@, download_url@),
{
    let url = download_url;
    let n: usize = url.unicode_len();
    let sep = match find_scheme_sep(url) {
        Some(i) => i,
        None => {
            return String::from_str(url);
        },
    };
    proof {
        lemma_find_sep_props(url@, 0);
        assert(sep_at(url@, sep as int));
    }
    if n - sep >= 29 {
        let prefix = url.substring_char(sep, sep + 29);
        if str_eq(prefix, "://inspector.pypi.io/project/") {
            proof {
                assert(already_inspector(url@));
            }
            return String::from_str(url);
        }
    }
    proof {
        assert(!already_inspector(url@));
    }
    let host_end = find_char(url, '/', sep + 3);
    let scheme = url.substring_char(0, sep);
    let path = url.substring_char(host_end, n);
    let mut out = String::new();
    append_str(&mut out, scheme);
    append_str(&mut out, "://inspector.pypi.io/project/");
    append_str(&mut out, name);
    push_char(&mut out, '/');
    append_str(&mut out, version);
    append_str(&mut out, path);
    push_char(&mut out, '/');
    proof {
        assert(scheme@ =~= url@.take(sep as int));
        assert(path@ =~= url_path(url@));
        assert(out@ =~= inspector_url_of(name@, version@, url@));
    }
    out
}

/// The rewrite is idempotent: applying it to an already-rewritten URL
/// produces the same result.
pub proof fn lemma_inspector_url_idempotent(name: Seq<char>, version: Seq<char>, url: Seq<char>)
    ensures
        inspector_url_of(name, version, inspector_url_of(name, version, url)) == inspector_url_of(
            name,
            version,
            url,
        ),
{
    if sep_index(url) < 0 || already_inspector(url) {
    } else {
        let lit = "://inspector.pypi.io/project/"@;
        let s = sep_index(url);
        let scheme = url.take(s);
        let w = inspector_url_of(name, version, url);
        lemma_find_sep_props(url, 0);
        reveal_strlit("://inspector.pypi.io/project/");
        assert(scheme.len() == s);
        assert(w[s] == lit[0]);
        assert(w[s + 1] == lit[1]);
        assert(w[s + 2] == lit[2]);
        assert(sep_at(w, s));
        assert forall|j: int| 0 <= j < s implies !sep_at(w, j) by {
            if j + 3 <= s {
                assert(w[j] == url[j]);
                assert(w[j + 1] == url[j + 1]);
                assert(w[j + 2] == url[j + 2]);
                assert(!sep_at(url, j));
            } else if j == s - 2 {
                assert(w[j + 2] == lit[0]);
            } else if j == s - 1 {
                assert(w[j + 1] == lit[0]);
            }
        }
        lemma_find_sep_first(w, s, 0);
        assert(sep_index(w) == s);
        assert(w.subrange(s, s + 29) =~= lit);
        assert(already_inspector(w));
    }
}

/// Choose the archive reader for a download: a URL ending in `.tar.gz` is a
/// gzip-compressed tarball, anything else is read as a zip archive.
pub fn is_tarball_url(url: &str) -> (b: bool)
    ensures
        b == seq_ends_with(url@, ".tar.gz"@),
{
    str_ends_with(url, ".tar.gz")
}

/// Why a bearer token's expiry could not be read.
#[derive(Debug, PartialEq, Eq, Clone, Copy)]
pub enum JwtError {
    /// The token has no payload part between dots.
    MissingPayload,
    /// The payload part is not valid base64.
    InvalidBase64,
    /// The decoded payload holds no integer `exp` field.
    MissingExp,
}

/// The payload part of a JWT: the characters between the first dot and the
/// second dot (or the end), or nothing when the token has no dot.
pub open spec fn payload_of(jwt: Seq<char>) -> Option<Seq<char>> {
    let d1 = find_char_from(jwt, '.', 0);
    if d1 == jwt.len() {
        Option::None
    } else {
        Option::Some(jwt.subrange(d1 + 1, find_char_from(jwt, '.', d1 + 1)))
    }
}

/// What the base64 URL-safe no-padding alphabet decodes a string to, when it
/// decodes at all. A function of the characters alone.
pub uninterp spec fn b64_url_decoded(s: Seq<char>) -> Option<Seq<u8>>;

/// The integer `exp` field of a JSON document, when the bytes parse as JSON
/// and carry one. A function of the bytes alone.
pub uninterp spec fn exp_field_of(bytes: Seq<u8>) -> Option<i64>;

/// Relies on base64's `URL_SAFE_NO_PAD` engine: `decode` maps the input
/// characters to bytes, or fails, depending on the input alone.
#[verifier::external_body]
fn b64_url_decode(s: &str) -> (r: Option<Vec<u8>>)
    ensures
        match r {
            Some(v) => b64_url_decoded(s@) == Option::Some(v@),
            None => b64_url_decoded(s@) is None,
        },
{
    base64::Engine::decode(&base64::engine::general_purpose::URL_SAFE_NO_PAD, s).ok()
}

/// Relies on serde_json: `from_slice` parses the bytes as JSON, `Value::get`
/// looks up the `exp` member, and `Value::as_i64` reads it when it is an
/// integer. The outcome depends on the bytes alone.
#[verifier::external_body]
fn json_exp_field(bytes: &Vec<u8>) -> (r: Option<i64>)
    ensures
        r == exp_field_of(bytes@),
{
    match serde_json::from_slice::<serde_json::Value>(bytes.as_slice()) {
        Ok(v) => v.get("exp").and_then(serde_json::Value::as_i64),
        Err(_) => None,
    }
}

/// Read the expiry instant out of a bearer token: the integer `exp` field of
/// its base64-encoded payload, as seconds since the epoch.
pub fn get_jwt_exp(jwt: &str) -> (r: Result<i64, JwtError>)
    ensures
        match r {
            Ok(exp) => payload_of(jwt@) matches Some(p) && b64_url_decoded(p) matches Some(bytes)
                && exp_field_of(bytes) == Some(exp),
            Err(JwtError::MissingPayload) => payload_of(jwt@) is None,
            Err(JwtError::InvalidBase64) => payload_of(jwt@) matches Some(p) && b64_url_decoded(p)
                is None,
            Err(JwtError::MissingExp) => payload_of(jwt@) matches Some(p) && b64_url_decoded(p)
                matches Some(bytes) && exp_field_of(bytes) is None,
        },
{
    let n: usize = jwt.unicode_len();
    let d1 = find_char(jwt, '.', 0);
    if d1 == n {
        return Err(JwtError::MissingPayload);
    }
    proof {
        lemma_find_char_props(jwt@, '.', 0);
    }
    let d2 = find_char(jwt, '.', d1 + 1);
    let payload = jwt.substring_char(d1 + 1, d2);
    proof {
        assert(payload@ =~= payload_of(jwt@).unwrap());
    }
    let decoded = match b64_url_decode(payload) {
        Some(bytes) => bytes,
        None => {
            return Err(JwtError::InvalidBase64);
        },
    };
    match json_exp_field(&decoded) {
        Some(exp) => Ok(exp),
        None => Err(JwtError::MissingExp),
    }
}

} // verus!
