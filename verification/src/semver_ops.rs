//! Trusted view of the `semver` crate: range parsing, version parsing,
//! range matching and version precedence, each named over the plain strings
//! that the rest of the library carries.

use vstd::prelude::*;

verus! {

/// Whether a string is a valid semantic-version range expression.
pub uninterp spec fn range_ok(r: Seq<char>) -> bool;

/// Whether a string is a valid exact semantic version.
pub uninterp spec fn ver_ok(v: Seq<char>) -> bool;

/// Whether the version named by `v` satisfies the range named by `r`.
/// Meaningful only when `range_ok(r)` and `ver_ok(v)` hold.
pub uninterp spec fn range_matches(r: Seq<char>, v: Seq<char>) -> bool;

/// Whether the version named by `a` precedes the version named by `b`
/// in semantic-version order. Meaningful only when both strings parse.
pub uninterp spec fn ver_lt(a: Seq<char>, b: Seq<char>) -> bool;

/// Relies on `semver::VersionReq::parse`: whether a range string is a valid
/// range expression is a function of the string alone.
#[verifier::external_body]
pub(crate) fn range_parses(r: &str) -> (b: bool)
    ensures
        b == range_ok(r@),
{
    semver::VersionReq::parse(r).is_ok()
}

/// Relies on `semver::Version::parse`: whether a version string is a valid
/// exact semantic version is a function of the string alone.
#[verifier::external_body]
pub(crate) fn version_parses(v: &str) -> (b: bool)
    ensures
        b == ver_ok(v@),
{
    semver::Version::parse(v).is_ok()
}

/// Relies on `semver::VersionReq::matches` (and on the two parse functions to
/// turn the strings into the values it takes): whether a parsed version
/// satisfies a parsed range is a function of the two strings alone.
#[verifier::external_body]
pub(crate) fn range_matches_version(r: &str, v: &str) -> (b: bool)
    requires
        range_ok(r@),
        ver_ok(v@),
    ensures
        b == range_matches(r@, v@),
{
    let req = semver::VersionReq::parse(r).unwrap();
    let ver = semver::Version::parse(v).unwrap();
    req.matches(&ver)
}

/// Relies on `semver::Version`'s `Ord` implementation (and on
/// `semver::Version::parse` to turn the strings into the values it compares):
/// `Ord` is a total order, so the comparison is asymmetric and transitive.
#[verifier::external_body]
pub(crate) fn version_lt(a: &str, b: &str) -> (r: bool)
    requires
        ver_ok(a@),
        ver_ok(b@),
    ensures
        r == ver_lt(a@, b@),
        r ==> !ver_lt(b@, a@),
        r ==> forall|c: Seq<char>| ver_ok(c) && #[trigger] ver_lt(b@, c) ==> ver_lt(a@, c),
{
    let va = semver::Version::parse(a).unwrap();
    let vb = semver::Version::parse(b).unwrap();
    va < vb
}

} // verus!
