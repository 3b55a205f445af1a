//! Trusted boundary to the `url` crate.
//!
//! URLs live in the library as their canonical serialization (a plain
//! `String`).  What the `url` crate computes from such a string — whether it
//! parses, its host, its path, and the serializations that result from
//! replacing the path or the fragment — is named by uninterpreted spec
//! functions; each wrapper below performs one `url::Url` operation and is the
//! sole source of facts about the corresponding name.

use vstd::prelude::*;

verus! {

/// Machine limit on the strings handed to the URL-mutating calls: the `url`
/// crate stores component positions as `u32` and aborts past that range.
/// Parsing expands a character to at most twelve (a four-byte character
/// percent-encoded), so serializations stay around 2^31 bytes, far below
/// `u32::MAX`, whenever the character counts involved stay below this bound.
pub const URL_LEN_LIMIT: usize = 0x800_0000;

/// What `url::Url::parse` makes of `s`: `None` when it is rejected,
/// otherwise the canonical serialization of the parsed URL.
pub uninterp spec fn url_parse(s: Seq<char>) -> Option<Seq<char>>;

/// The host of the URL serialized as `s`, if it has one.
pub uninterp spec fn url_host(s: Seq<char>) -> Option<Seq<char>>;

/// The path of the URL serialized as `s`.
pub uninterp spec fn url_path(s: Seq<char>) -> Seq<char>;

/// The serialization of the URL `s` after its path is replaced by `path`.
pub uninterp spec fn url_with_path(s: Seq<char>, path: Seq<char>) -> Seq<char>;

/// The serialization of the URL `s` after its fragment is replaced by `frag`.
pub uninterp spec fn url_with_fragment(s: Seq<char>, frag: Seq<char>) -> Seq<char>;

/// Relies on `url::Url::parse` and on `Display for Url`, which serializes the
/// parsed URL.  A serialization parses back to the same URL, so the result is
/// a fixed point of parsing.
#[verifier::external_body]
pub fn url_check(s: &str) -> (r: Option<String>)
    ensures
        match r {
            Some(t) => url_parse(s@) == Some(t@) && url_parse(t@) == Some(t@),
            None => url_parse(s@) is None,
        },
{
    match url::Url::parse(s) {
        Ok(u) => Some(u.to_string()),
        Err(_) => None,
    }
}

/// Relies on `url::Url::host_str`: the host slice of the serialization, or
/// `None` for URLs without a host.
#[verifier::external_body]
pub fn url_host_of(s: &str) -> (r: Option<String>)
    requires
        url_parse(s@) is Some,
    ensures
        match r {
            Some(h) => url_host(s@) == Some(h@),
            None => url_host(s@) is None,
        },
{
    match url::Url::parse(s) {
        Ok(u) => u.host_str().map(|h| h.to_string()),
        Err(_) => None,
    }
}

/// Relies on `url::Url::path`.
#[verifier::external_body]
pub fn url_path_of(s: &str) -> (r: String)
    requires
        url_parse(s@) is Some,
    ensures
        r@ == url_path(s@),
{
    match url::Url::parse(s) {
        Ok(u) => u.path().to_string(),
        Err(_) => String::new(),
    }
}

/// Relies on `url::Url::set_path`; the result is again a URL serialization,
/// so parsing it succeeds.  No fixed point is claimed: for URLs without an
/// authority the serializer may keep a redundant `/.` path guard that a
/// reparse drops, so the reparse can differ from the string itself.  The
/// length bound keeps the rebuilt serialization far below the `u32` range,
/// past which `set_path` would abort.
#[verifier::external_body]
pub fn url_replace_path(s: &str, path: &str) -> (r: String)
    requires
        url_parse(s@) is Some,
        s@.len() + path@.len() < URL_LEN_LIMIT,
    ensures
        r@ == url_with_path(s@, path@),
        url_parse(r@) is Some,
{
    match url::Url::parse(s) {
        Ok(mut u) => {
            u.set_path(path);
            u.to_string()
        },
        Err(_) => String::new(),
    }
}

/// Relies on `url::Url::set_fragment`: deterministic percent-encoding of the
/// fragment onto the serialization.  The length bound keeps the serialization
/// whose position `set_fragment` records far below the `u32` range, past
/// which it would abort (the appended fragment itself records no position).
#[verifier::external_body]
pub fn url_set_fragment(s: &str, frag: &str) -> (r: String)
    requires
        url_parse(s@) is Some,
        s@.len() < URL_LEN_LIMIT,
    ensures
        r@ == url_with_fragment(s@, frag@),
{
    match url::Url::parse(s) {
        Ok(mut u) => {
            u.set_fragment(Some(frag));
            u.to_string()
        },
        Err(_) => String::new(),
    }
}

} // verus!
