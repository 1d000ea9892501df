//! Trusted declarations for the few outside items the verified code calls.

use md5::Digest;
use vstd::prelude::*;

use crate::davurl::{canonical_url, display_form, plain_url};

verus! {

/// Wall-clock timestamps are carried through unchanged; their contents are
/// never inspected by the verified code.
#[verifier::external_type_specification]
#[verifier::external_body]
pub struct ExSystemTime(std::time::SystemTime);

/// Reads the system clock through `std::time::SystemTime::now`.
/// Nothing is promised about the value: it depends on the time of the call.
#[verifier::external_body]
pub(crate) fn now() -> std::time::SystemTime {
    std::time::SystemTime::now()
}

/// The MD5 digest of `data`, as computed by the `md-5` crate.
pub uninterp spec fn md5_digest(data: Seq<u8>) -> Seq<u8>;

/// Calls `md5::Md5::digest` (crate `md-5`) and copies the 16-byte output
/// into a vector. The digest itself is named, not described: the contract
/// says only that it is a function of the input bytes and is 16 bytes long
/// (the crate's output size is `U16`).
#[verifier::external_body]
pub(crate) fn md5(data: &[u8]) -> (digest: Vec<u8>)
    ensures
        digest@ == md5_digest(data@),
        digest@.len() == 16,
{
    md5::Md5::digest(data).to_vec()
}

/// The URL paths that `dav_server::davpath::DavPath::new` accepts.
pub uninterp spec fn dav_path_accepts(url: Seq<char>) -> bool;

/// WebDAV paths are carried through unchanged; their fields are private to
/// the `dav-server` crate.
#[verifier::external_type_specification]
#[verifier::external_body]
pub struct ExDavPath(dav_server::davpath::DavPath);

/// The URL form (as `DavPath::as_url_string` writes it) of the path that
/// `DavPath::new` makes of `url`.
pub uninterp spec fn dav_path_normal_url(url: Seq<char>) -> Seq<char>;

/// How the path that `DavPath::new` makes of `url` is displayed (its
/// `Display` form, from which object keys are derived).
pub uninterp spec fn dav_path_display(url: Seq<char>) -> Seq<char>;

/// A parsed WebDAV path together with its URL form and its displayed form.
/// Only `dav_path_parse` fills it, with the path, that path's
/// `as_url_string` and that path's `to_string`.
#[derive(Debug)]
pub struct ParsedDavPath {
    path: dav_server::davpath::DavPath,
    url: String,
    display: String,
}

impl ParsedDavPath {
    /// The URL form of the path.
    pub closed spec fn url_view(&self) -> Seq<char> {
        self.url@
    }

    /// The displayed form of the path.
    pub closed spec fn display_view(&self) -> Seq<char> {
        self.display@
    }

    /// The displayed form of the path.
    pub fn display(&self) -> (r: &str)
        ensures
            r@ == self.display_view(),
    {
        self.display.as_str()
    }

    /// The URL form of the path.
    pub fn url(&self) -> (r: &str)
        ensures
            r@ == self.url_view(),
    {
        self.url.as_str()
    }

    /// The parsed path.
    pub fn path(&self) -> &dav_server::davpath::DavPath {
        &self.path
    }

    /// The parsed path, by value.
    pub fn into_path(self) -> dav_server::davpath::DavPath {
        self.path
    }
}

/// Parses a URL-encoded path with `DavPath::new` (crate `dav-server`) and
/// writes the result back out with `DavPath::as_url_string` and with its
/// `Display` impl (`to_string`).
///
/// `DavPath::new` (through `normalize_path`) rejects paths that are not
/// printable ASCII, that hold a fragment, that do not begin with `/`, that
/// climb above the root or whose decoded segments hold NUL or `/`; it drops a
/// query, merges slashes, removes `.` and resolves `..`, and decodes escapes.
/// `as_url_string` escapes every byte that is not a letter, digit, `-`, `_`,
/// `.`, `~` or `/`, with upper-case hex. `Display` shows the decoded path
/// (`as_pathbuf`) without a trailing `/` unless it is the root. The contract
/// names the accepted paths and both forms of the result, and states the
/// facts the verified code needs of them: a path already in canonical form is
/// accepted and written back unchanged, and one without escapes is displayed
/// as itself, less a trailing `/`.
#[verifier::external_body]
pub(crate) fn dav_path_parse(url: &str) -> (p: Option<ParsedDavPath>)
    ensures
        p is Some == dav_path_accepts(url@),
        p matches Some(q) ==> q.url_view() == dav_path_normal_url(url@),
        p is Some || !canonical_url(url@),
        p matches Some(q) ==> (canonical_url(url@) ==> q.url_view() == url@),
        p matches Some(q) ==> q.display_view() == dav_path_display(url@),
        p matches Some(q) ==> (plain_url(url@) ==> q.display_view() == display_form(url@)),
{
    match dav_server::davpath::DavPath::new(url) {
        Ok(path) => {
            let url = path.as_url_string();
            let display = path.to_string();
            Some(ParsedDavPath { path, url, display })
        },
        Err(_) => None,
    }
}

} // verus!
