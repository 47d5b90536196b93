use minipm::resolve::resolve;
use minipm::resolve::resolve_index;
use minipm::resolve::ResolveError;

fn versions(vs: &[&str]) -> Vec<String> {
    vs.iter().map(|s| s.to_string()).collect()
}

#[test]
fn exact_match_fast_path_pinned_version() {
    let vs = versions(&["1.0.0", "1.2.0", "2.0.0"]);
    assert_eq!(resolve("1.2.0", &vs), Ok("1.2.0".to_string()));
    assert_eq!(resolve_index("1.2.0", &vs), Ok(1));
}

#[test]
fn exact_match_fast_path_skips_range_parsing() {
    // The published list contains the request string verbatim, so it is
    // returned even though it is no valid range expression.
    let vs = versions(&["1.0.0", "not-a-range"]);
    assert_eq!(resolve("not-a-range", &vs), Ok("not-a-range".to_string()));
}

#[test]
fn highest_satisfying_selection() {
    let vs = versions(&["1.0.0", "1.2.0", "1.9.0", "2.0.0"]);
    assert_eq!(resolve("^1.0.0", &vs), Ok("1.9.0".to_string()));
}

#[test]
fn highest_satisfying_selection_unordered_input() {
    let vs = versions(&["1.9.0", "2.0.0", "1.0.0", "1.2.0"]);
    assert_eq!(resolve("^1.0.0", &vs), Ok("1.9.0".to_string()));
    assert_eq!(resolve_index("^1.0.0", &vs), Ok(0));
}

#[test]
fn no_match_is_not_found() {
    let vs = versions(&["1.0.0"]);
    assert_eq!(resolve("^2.0.0", &vs), Err(ResolveError::NotFound));
}

#[test]
fn malformed_range_is_fatal() {
    let vs = versions(&["1.0.0"]);
    assert_eq!(resolve("not-a-range", &vs), Err(ResolveError::InvalidRange));
    let empty: Vec<String> = Vec::new();
    assert_eq!(resolve("not-a-range", &empty), Err(ResolveError::InvalidRange));
}

#[test]
fn unparseable_published_versions_are_discarded() {
    let vs = versions(&["garbage", "1.5.0", "also bad"]);
    assert_eq!(resolve("^1.0.0", &vs), Ok("1.5.0".to_string()));
}

#[test]
fn all_published_versions_unparseable_is_not_found() {
    let vs = versions(&["garbage", "also bad"]);
    assert_eq!(resolve("^1.0.0", &vs), Err(ResolveError::NotFound));
}

#[test]
fn tilde_range_respects_minor_bound() {
    let vs = versions(&["1.2.0", "1.2.9", "1.3.0"]);
    assert_eq!(resolve("~1.2.0", &vs), Ok("1.2.9".to_string()));
}

#[test]
fn prerelease_ordering_below_release() {
    let vs = versions(&["2.0.0-alpha", "2.0.0"]);
    assert_eq!(resolve(">=2.0.0-0", &vs), Ok("2.0.0".to_string()));
}
