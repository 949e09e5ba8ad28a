//! Semantic versions and version requirements, held as text and judged by
//! the `semver` crate that `cargo_metadata` re-exports.
//!
//! Nothing here is proved of `semver` itself: each judgement gets a name, and
//! the small functions at the boundary are believed to return what the name
//! stands for.

use cargo_metadata::semver::{Version, VersionReq};
use vstd::prelude::*;

verus! {

/// Whether `semver::Version::parse` accepts `text`.
pub uninterp spec fn is_version_text(text: Seq<char>) -> bool;

/// What comparing two version texts with `semver` gives: `Some(true)` where
/// both parse and the first is strictly greater in `semver`'s total order,
/// `Some(false)` where both parse and it is not, `None` where either text
/// does not parse.
pub uninterp spec fn version_text_exceeds(a: Seq<char>, b: Seq<char>) -> Option<bool>;

/// What `semver::VersionReq::matches` says of a requirement text and a
/// version text: `None` where either text does not parse.
pub uninterp spec fn requirement_text_admits(req: Seq<char>, version: Seq<char>) -> Option<bool>;

/// Calls `semver::Version::parse` and reports whether it succeeded. Trusted:
/// the call returns for every text, and what it returns depends on the text
/// alone.
#[verifier::external_body]
pub(crate) fn is_version(text: &str) -> (r: bool)
    ensures
        r == is_version_text(text@),
{
    Version::parse(text).is_ok()
}

/// Parses both texts with `semver::Version::parse` and compares the versions
/// with `>`, the order that `semver` implements for `Version`; `None` where
/// a text does not parse. Trusted: the calls return for every pair of texts,
/// and what they return depends on the two texts alone.
#[verifier::external_body]
pub(crate) fn version_exceeds(a: &str, b: &str) -> (r: Option<bool>)
    ensures
        r == version_text_exceeds(a@, b@),
{
    match (Version::parse(a), Version::parse(b)) {
        (Ok(a), Ok(b)) => Some(a > b),
        _ => None,
    }
}

/// Parses the requirement with `semver::VersionReq::parse` and the version
/// with `semver::Version::parse`, then asks `VersionReq::matches`; `None`
/// where a text does not parse. Trusted: the calls return for every pair of
/// texts, and what they return depends on the two texts alone.
#[verifier::external_body]
pub(crate) fn requirement_admits(req: &str, version: &str) -> (r: Option<bool>)
    ensures
        r == requirement_text_admits(req@, version@),
{
    match (VersionReq::parse(req), Version::parse(version)) {
        (Ok(req), Ok(version)) => Some(req.matches(&version)),
        _ => None,
    }
}

} // verus!
