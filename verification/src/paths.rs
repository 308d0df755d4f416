//! File-system paths and URLs as text.
//!
//! Paths and URLs are handed around as strings. What the platform's path
//! syntax makes of a path is left to `std::path`, and what a URL's parts are
//! to the `url` crate as `lsp_types` hands it on. The functions that make
//! those calls are believed, not proved: each contract names what the call
//! returns and claims nothing else of it.

use vstd::prelude::*;
use std::path::Path;

verus! {

/// What `Path::parent` returns for `path`, in the path syntax of the platform
/// that the library is built for.
pub uninterp spec fn path_parent(path: Seq<char>) -> Option<Seq<char>>;

/// What `Path::join` returns for `base` and `name`, in the path syntax of
/// the platform that the library is built for.
pub uninterp spec fn path_join(base: Seq<char>, name: Seq<char>) -> Seq<char>;

/// What `Path::starts_with` returns for `path` and `base`: whether `base` is a
/// prefix of `path`, whole components only.
pub uninterp spec fn path_starts_with(path: Seq<char>, base: Seq<char>) -> bool;

/// The path part of the URL that `uri` parses to, where it parses: what
/// `Url::path` returns for what `Url::parse` makes of `uri`.
pub uninterp spec fn url_path(uri: Seq<char>) -> Option<Seq<char>>;

/// Parses `uri` with `Url::parse` and calls `Url::path` on the result: the
/// path of the URL, percent-encoded as the URL holds it, or `None` where `uri`
/// is no absolute URL. The contract names the result and claims nothing else
/// of it.
#[verifier::external_body]
pub(crate) fn uri_path(uri: &str) -> (r: Option<String>)
    ensures
        r is Some == url_path(uri@) is Some,
        r is Some ==> r->0@ == url_path(uri@)->0,
{
    match lsp_types::Url::parse(uri) {
        Ok(url) => Some(url.path().to_string()),
        Err(_) => None,
    }
}

/// The file that `uri` names: the path of the URL, or `uri` itself where it
/// is no URL.
pub open spec fn file_of(uri: Seq<char>) -> Seq<char> {
    match url_path(uri) {
        Some(path) => path,
        None => uri,
    }
}

/// The file that `uri` names: the path of the URL, or `uri` itself where it
/// is no URL.
pub fn file_path(uri: &str) -> (path: String)
    ensures
        path@ == file_of(uri@),
{
    match uri_path(uri) {
        Some(path) => path,
        None => String::from_str(uri),
    }
}

/// Calls `Path::parent`: the path without its last component, or `None` where
/// the path ends in a root or is empty. The contract names the result and
/// claims nothing else of it.
#[verifier::external_body]
pub(crate) fn parent(path: &str) -> (r: Option<String>)
    ensures
        r is Some == path_parent(path@) is Some,
        r is Some ==> r->0@ == path_parent(path@)->0,
{
    match Path::new(path).parent() {
        Some(p) => Some(p.to_string_lossy().into_owned()),
        None => None,
    }
}

/// Calls `Path::join`: `name` appended to `base` as a further component, or
/// `name` alone where it is absolute. The contract names the result and
/// claims nothing else of it.
#[verifier::external_body]
pub(crate) fn join(base: &str, name: &str) -> (r: String)
    ensures
        r@ == path_join(base@, name@),
{
    Path::new(base).join(name).to_string_lossy().into_owned()
}

/// Calls `Path::starts_with`. The contract names the result and claims
/// nothing else of it.
#[verifier::external_body]
pub(crate) fn starts_with(path: &str, base: &str) -> (r: bool)
    ensures
        r == path_starts_with(path@, base@),
{
    Path::new(path).starts_with(base)
}

/// The path `levels` parents above `path`, where it has that many.
pub open spec fn ancestor(path: Seq<char>, levels: nat) -> Option<Seq<char>>
    decreases levels,
{
    if levels == 0 {
        Some(path)
    } else {
        match path_parent(path) {
            Some(p) => ancestor(p, (levels - 1) as nat),
            None => None,
        }
    }
}

/// Where the integration fixtures lie, seen from the directory `dir`: four
/// levels up, then `test/integration/konfig`.
pub open spec fn konfig_path_from(dir: Seq<char>) -> Option<Seq<char>> {
    match ancestor(dir, 4) {
        Some(top) => Some(
            path_join(path_join(path_join(top, "test"@), "integration"@), "konfig"@),
        ),
        None => None,
    }
}

/// The path four parents above `path`, where it has that many.
fn fourth_parent(path: &str) -> (r: Option<String>)
    ensures
        r is Some == ancestor(path@, 4) is Some,
        r is Some ==> r->0@ == ancestor(path@, 4)->0,
{
    reveal_with_fuel(ancestor, 5);
    let first = match parent(path) {
        Some(p) => p,
        None => { return None; },
    };
    let second = match parent(first.as_str()) {
        Some(p) => p,
        None => { return None; },
    };
    let third = match parent(second.as_str()) {
        Some(p) => p,
        None => { return None; },
    };
    parent(third.as_str())
}

/// The directory of the integration fixtures, given the canonical working
/// directory, which must have four parents.
pub fn konfig_path(current_dir: &str) -> (path: String)
    requires
        konfig_path_from(current_dir@) is Some,
    ensures
        path@ == konfig_path_from(current_dir@)->0,
{
    let top = fourth_parent(current_dir).unwrap();
    let with_test = join(top.as_str(), "test");
    let with_integration = join(with_test.as_str(), "integration");
    join(with_integration.as_str(), "konfig")
}

/// The directory of the integration fixtures, given the canonical working
/// directory: `None` where that directory has fewer than four parents.
pub fn find_konfig_path(current_dir: &str) -> (r: Option<String>)
    ensures
        r is Some == konfig_path_from(current_dir@) is Some,
        r is Some ==> r->0@ == konfig_path_from(current_dir@)->0,
{
    if fourth_parent(current_dir).is_some() {
        Some(konfig_path(current_dir))
    } else {
        None
    }
}

} // verus!
