//! Version Resolver: given a requested range and the set of published
//! versions of a package, picks the version to install.
//!
//! Policy: an exact string match with a published version wins outright (a
//! pinned version needs no range semantics); otherwise the range must parse,
//! every published version that parses and satisfies the range is a
//! candidate, and the highest candidate in semantic-version precedence is
//! chosen.

use vstd::prelude::*;

use crate::semver_ops::range_matches;
use crate::semver_ops::range_matches_version;
use crate::semver_ops::range_ok;
use crate::semver_ops::range_parses;
use crate::semver_ops::ver_lt;
use crate::semver_ops::ver_ok;
use crate::semver_ops::version_lt;
use crate::semver_ops::version_parses;

verus! {

/// Why resolution failed for a dependency.
#[derive(Clone, Copy, PartialEq, Eq, Structural, Debug)]
pub enum ResolveError {
    /// The requested range is not a valid range expression.
    InvalidRange,
    /// No published version satisfies the requested range.
    NotFound,
}

/// A published version string that may be installed for the range: it parses
/// as an exact semantic version and satisfies the range.
pub open spec fn candidate(range: Seq<char>, v: Seq<char>) -> bool {
    ver_ok(v) && range_matches(range, v)
}

/// The plain string values of a list of version strings.
pub open spec fn views_of(versions: Seq<String>) -> Seq<Seq<char>> {
    versions.map_values(|s: String| s@)
}

/// Some published version string equals the requested range verbatim.
pub open spec fn has_exact(range: Seq<char>, versions: Seq<Seq<char>>) -> bool {
    exists|j: int| 0 <= j < versions.len() && versions[j] == range
}

/// Some published version satisfies the range.
pub open spec fn has_candidate(range: Seq<char>, versions: Seq<Seq<char>>) -> bool {
    exists|j: int| 0 <= j < versions.len() && candidate(range, versions[j])
}

/// `v` is a highest candidate among `versions` for `range`: no candidate is
/// strictly above it (candidates equal to it as strings are allowed).
pub open spec fn is_highest_candidate(range: Seq<char>, versions: Seq<Seq<char>>, v: Seq<char>) -> bool {
    &&& candidate(range, v)
    &&& forall|j: int|
        0 <= j < versions.len() && #[trigger] candidate(range, versions[j])
            ==> versions[j] == v || !ver_lt(v, versions[j])
}

/// Picks the index of the version to install, or says exactly why none can
/// be: an exact string match is returned even when the range would not parse;
/// otherwise an unparseable range is fatal, and so is an empty candidate set.
pub fn resolve_index(range: &str, versions: &Vec<String>) -> (r: Result<usize, ResolveError>)
    ensures
        match r {
            Ok(i) => {
                &&& 0 <= i < versions@.len()
                &&& if has_exact(range@, views_of(versions@)) {
                    versions@[i as int]@ == range@
                } else {
                    &&& range_ok(range@)
                    &&& is_highest_candidate(range@, views_of(versions@), versions@[i as int]@)
                }
            },
            Err(ResolveError::InvalidRange) => !has_exact(range@, views_of(versions@)) && !range_ok(range@),
            Err(ResolveError::NotFound) => {
                &&& !has_exact(range@, views_of(versions@))
                &&& range_ok(range@)
                &&& !has_candidate(range@, views_of(versions@))
            },
        },
{
    let n = versions.len();
    let range_owned: String = range.to_owned();

    let mut i: usize = 0;
    while i < n
        invariant
            n == versions@.len(),
            i <= n,
            range_owned@ == range@,
            forall|j: int| 0 <= j < i ==> versions@[j]@ != range@,
        decreases n - i,
    {
        if versions[i].eq(&range_owned) {
            proof {
                assert(views_of(versions@)[i as int] == range@);
            }
            return Ok(i);
        }
        i = i + 1;
    }

    proof {
        assert(!has_exact(range@, views_of(versions@))) by {
            if has_exact(range@, views_of(versions@)) {
                let j = choose|j: int|
                    0 <= j < views_of(versions@).len() && views_of(versions@)[j] == range@;
                assert(versions@[j]@ == range@);
            }
        }
    }

    if !range_parses(range) {
        return Err(ResolveError::InvalidRange);
    }

    let mut best: Option<usize> = None;
    let mut i: usize = 0;
    while i < n
        invariant
            n == versions@.len(),
            i <= n,
            range_ok(range@),
            match best {
                None => forall|j: int| 0 <= j < i ==> !candidate(range@, versions@[j]@),
                Some(b) => {
                    &&& 0 <= b < i
                    &&& candidate(range@, versions@[b as int]@)
                    &&& forall|j: int|
                        0 <= j < i && #[trigger] candidate(range@, versions@[j]@)
                            ==> versions@[j]@ == versions@[b as int]@
                                || !ver_lt(versions@[b as int]@, versions@[j]@)
                },
            },
        decreases n - i,
    {
        if version_parses(versions[i].as_str()) && range_matches_version(range, versions[i].as_str()) {
            match best {
                None => {
                    best = Some(i);
                },
                Some(b) => {
                    if version_lt(versions[b].as_str(), versions[i].as_str()) {
                        best = Some(i);
                    }
                },
            }
        }
        i = i + 1;
    }

    match best {
        Some(b) => {
            proof {
                assert(is_highest_candidate(range@, views_of(versions@), versions@[b as int]@))
                    by {
                    assert forall|j: int|
                        0 <= j < views_of(versions@).len() && #[trigger] candidate(
                            range@,
                            views_of(versions@)[j],
                        ) implies views_of(versions@)[j] == versions@[b as int]@ || !ver_lt(
                        versions@[b as int]@,
                        views_of(versions@)[j],
                    ) by {
                        assert(views_of(versions@)[j] == versions@[j]@);
                        assert(candidate(range@, versions@[j]@));
                    }
                }
            }
            Ok(b)
        },
        None => {
            proof {
                assert(!has_candidate(range@, views_of(versions@))) by {
                    if has_candidate(range@, views_of(versions@)) {
                        let j = choose|j: int|
                            0 <= j < views_of(versions@).len() && candidate(
                                range@,
                                views_of(versions@)[j],
                            );
                        assert(candidate(range@, versions@[j]@));
                    }
                }
            }
            Err(ResolveError::NotFound)
        },
    }
}

/// Resolves a range against a set of published versions to the version
/// string to install, by the same policy as `resolve_index`.
pub fn resolve(range: &str, versions: &Vec<String>) -> (r: Result<String, ResolveError>)
    ensures
        match r {
            Ok(v) => {
                &&& exists|j: int| 0 <= j < versions@.len() && versions@[j]@ == v@
                &&& if has_exact(range@, views_of(versions@)) {
                    v@ == range@
                } else {
                    &&& range_ok(range@)
                    &&& is_highest_candidate(range@, views_of(versions@), v@)
                }
            },
            Err(ResolveError::InvalidRange) => !has_exact(range@, views_of(versions@)) && !range_ok(range@),
            Err(ResolveError::NotFound) => {
                &&& !has_exact(range@, views_of(versions@))
                &&& range_ok(range@)
                &&& !has_candidate(range@, views_of(versions@))
            },
        },
{
    match resolve_index(range, versions) {
        Ok(i) => Ok(versions[i].clone()),
        Err(e) => Err(e),
    }
}

} // verus!
