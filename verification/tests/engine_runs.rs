use minipm::digest::format_digest;
use minipm::engine::Action;
use minipm::engine::Engine;
use minipm::engine::FailureKind;
use minipm::engine::VersionRecord;
use minipm::lock::Dep;
use minipm::lock::LockEntry;
use minipm::lock::LockModel;

fn dep(name: &str, range: &str) -> Dep {
    Dep { name: name.to_string(), range: range.to_string() }
}

fn entry(version: &str, url: &str, integrity: &str, deps: Option<Vec<Dep>>) -> LockEntry {
    LockEntry {
        version: version.to_string(),
        resolved_url: url.to_string(),
        integrity: integrity.to_string(),
        dependencies: deps,
    }
}

fn record(version: &str, url: &str, integrity: &str, deps: Option<Vec<Dep>>) -> VersionRecord {
    VersionRecord {
        version: version.to_string(),
        tarball: url.to_string(),
        integrity: integrity.to_string(),
        dependencies: deps,
    }
}

fn copy_lock(lock: &LockModel) -> LockModel {
    let mut out = LockModel::new();
    for i in 0..lock.len() {
        let (name, e) = lock.item_at(i);
        let deps = e.dependencies.as_ref().map(|ds| {
            ds.iter().map(|d| dep(&d.name, &d.range)).collect::<Vec<Dep>>()
        });
        out.insert(name.clone(), entry(&e.version, &e.resolved_url, &e.integrity, deps));
    }
    out
}

/// Drives a whole run against closures standing in for the registry and the
/// transport; returns the final action, how often the registry was asked,
/// and every extraction destination in order.
fn drive<FR, FB>(
    engine: &mut Engine,
    mut fetch_versions: FR,
    mut fetch_bytes: FB,
) -> (Action, usize, Vec<String>)
where
    FR: FnMut(&str) -> Vec<VersionRecord>,
    FB: FnMut(&str) -> Vec<u8>,
{
    let mut registry_calls: usize = 0;
    let mut dests: Vec<String> = Vec::new();
    let mut action = engine.advance();
    loop {
        match action {
            Action::Done => return (Action::Done, registry_calls, dests),
            Action::Fail { name, kind } => {
                return (Action::Fail { name, kind }, registry_calls, dests);
            }
            Action::FetchVersions { name } => {
                registry_calls += 1;
                let records = fetch_versions(&name);
                action = engine.on_versions(records);
            }
            Action::FetchBytes { url } => {
                let bytes = fetch_bytes(&url);
                action = engine.on_bytes(&bytes);
            }
            Action::Extract { dest } => {
                dests.push(dest);
                engine.on_extracted();
                action = engine.advance();
            }
        }
    }
}

#[test]
fn lock_reuse_does_not_contact_registry() {
    let bytes: Vec<u8> = b"tarball of a 1.2.0".to_vec();
    let digest = format_digest(&bytes);
    let mut lock = LockModel::new();
    lock.insert("a".to_string(), entry("1.2.0", "https://reg/a-1.2.0.tgz", &digest, None));

    let mut engine = Engine::new(vec![dep("a", "^1.0.0")], lock);
    match engine.advance() {
        Action::FetchBytes { url } => assert_eq!(url, "https://reg/a-1.2.0.tgz"),
        _ => panic!("a satisfying lock entry must be installed from its recorded url"),
    }
    match engine.on_bytes(&bytes) {
        Action::Extract { dest } => assert_eq!(dest, "./node_modules/a"),
        _ => panic!("verified bytes must be extracted"),
    }
    engine.on_extracted();
    assert!(matches!(engine.advance(), Action::Done));

    let lock = engine.lock_model();
    assert_eq!(lock.len(), 1);
    let e = lock.get("a").unwrap();
    assert_eq!(e.version, "1.2.0");
    assert_eq!(e.resolved_url, "https://reg/a-1.2.0.tgz");
    assert_eq!(e.integrity, digest);
}

#[test]
fn stale_lock_entry_is_resolved_fresh_and_overwritten() {
    let old_bytes: Vec<u8> = b"old tarball".to_vec();
    let new_bytes: Vec<u8> = b"new tarball".to_vec();
    let old_digest = format_digest(&old_bytes);
    let new_digest = format_digest(&new_bytes);
    let mut lock = LockModel::new();
    lock.insert("a".to_string(), entry("1.0.0", "https://reg/a-1.0.0.tgz", &old_digest, None));

    let mut engine = Engine::new(vec![dep("a", "^2.0.0")], lock);
    match engine.advance() {
        Action::FetchVersions { name } => assert_eq!(name, "a"),
        _ => panic!("a stale lock entry must trigger a fresh registry resolution"),
    }
    let records = vec![
        record("1.0.0", "https://reg/a-1.0.0.tgz", &old_digest, None),
        record("2.1.0", "https://reg/a-2.1.0.tgz", &new_digest, None),
    ];
    match engine.on_versions(records) {
        Action::FetchBytes { url } => assert_eq!(url, "https://reg/a-2.1.0.tgz"),
        _ => panic!("the fresh resolution must fetch the chosen record's artifact"),
    }
    match engine.on_bytes(&new_bytes) {
        Action::Extract { dest } => assert_eq!(dest, "./node_modules/a"),
        _ => panic!("verified bytes must be extracted"),
    }
    engine.on_extracted();
    assert!(matches!(engine.advance(), Action::Done));

    let lock = engine.lock_model();
    assert_eq!(lock.len(), 1);
    let e = lock.get("a").unwrap();
    assert_eq!(e.version, "2.1.0");
    assert_eq!(e.resolved_url, "https://reg/a-2.1.0.tgz");
    assert_eq!(e.integrity, new_digest);
}

#[test]
fn warm_lock_second_run_is_read_only() {
    let a_bytes: Vec<u8> = b"a tarball".to_vec();
    let b_bytes: Vec<u8> = b"b tarball".to_vec();
    let a_digest = format_digest(&a_bytes);
    let b_digest = format_digest(&b_bytes);

    let registry = |name: &str| -> Vec<VersionRecord> {
        match name {
            "a" => vec![record(
                "1.3.0",
                "https://reg/a-1.3.0.tgz",
                &a_digest,
                Some(vec![dep("b", "^2.0.0")]),
            )],
            "b" => vec![record("2.5.0", "https://reg/b-2.5.0.tgz", &b_digest, None)],
            other => panic!("unexpected registry query for {other}"),
        }
    };
    let transport = |url: &str| -> Vec<u8> {
        match url {
            "https://reg/a-1.3.0.tgz" => a_bytes.clone(),
            "https://reg/b-2.5.0.tgz" => b_bytes.clone(),
            other => panic!("unexpected fetch of {other}"),
        }
    };

    let mut first = Engine::new(vec![dep("a", "^1.0.0")], LockModel::new());
    let (outcome, registry_calls, _) = drive(&mut first, registry, transport);
    assert!(matches!(outcome, Action::Done));
    assert_eq!(registry_calls, 2);
    let warm = copy_lock(first.lock_model());
    assert_eq!(warm.len(), 2);

    let mut second = Engine::new(vec![dep("a", "^1.0.0")], copy_lock(first.lock_model()));
    let (outcome, registry_calls, _) = drive(
        &mut second,
        |name: &str| panic!("second run must not query the registry, asked for {name}"),
        transport,
    );
    assert!(matches!(outcome, Action::Done));
    assert_eq!(registry_calls, 0);

    let after = second.lock_model();
    assert_eq!(after.len(), warm.len());
    for name in ["a", "b"] {
        let before = warm.get(name).unwrap();
        let now = after.get(name).unwrap();
        assert_eq!(before.version, now.version);
        assert_eq!(before.resolved_url, now.resolved_url);
        assert_eq!(before.integrity, now.integrity);
    }
}

#[test]
fn transitive_dependency_is_nested_not_hoisted() {
    let a_bytes: Vec<u8> = b"a tarball".to_vec();
    let b_bytes: Vec<u8> = b"b tarball".to_vec();
    let a_digest = format_digest(&a_bytes);
    let b_digest = format_digest(&b_bytes);

    let mut engine = Engine::new(vec![dep("a", "^1.0.0")], LockModel::new());
    let (outcome, _, dests) = drive(
        &mut engine,
        |name: &str| match name {
            "a" => vec![record(
                "1.0.0",
                "https://reg/a.tgz",
                &a_digest,
                Some(vec![dep("b", "^1.0.0")]),
            )],
            "b" => vec![record("1.4.2", "https://reg/b.tgz", &b_digest, None)],
            other => panic!("unexpected registry query for {other}"),
        },
        |url: &str| match url {
            "https://reg/a.tgz" => a_bytes.clone(),
            "https://reg/b.tgz" => b_bytes.clone(),
            other => panic!("unexpected fetch of {other}"),
        },
    );
    assert!(matches!(outcome, Action::Done));
    assert_eq!(
        dests,
        vec!["./node_modules/a".to_string(), "./node_modules/a/node_modules/b".to_string()]
    );
    let lock = engine.lock_model();
    assert_eq!(lock.get("b").unwrap().version, "1.4.2");
}

#[test]
fn integrity_mismatch_aborts_and_writes_no_receipt() {
    let good: Vec<u8> = b"genuine artifact".to_vec();
    let digest = format_digest(&good);

    let mut engine = Engine::new(vec![dep("a", "^1.0.0")], LockModel::new());
    assert!(matches!(engine.advance(), Action::FetchVersions { .. }));
    assert!(matches!(
        engine.on_versions(vec![record("1.0.0", "https://reg/a.tgz", &digest, None)]),
        Action::FetchBytes { .. }
    ));
    let tampered: Vec<u8> = b"tampered artifact".to_vec();
    match engine.on_bytes(&tampered) {
        Action::Fail { name, kind } => {
            assert_eq!(name, "a");
            assert_eq!(kind, FailureKind::IntegrityMismatch);
        }
        _ => panic!("tampered bytes must fail verification"),
    }
    assert_eq!(engine.lock_model().len(), 0);
}

#[test]
fn unsupported_algorithm_aborts() {
    let bytes: Vec<u8> = b"whatever".to_vec();
    let mut engine = Engine::new(vec![dep("a", "^1.0.0")], LockModel::new());
    assert!(matches!(engine.advance(), Action::FetchVersions { .. }));
    assert!(matches!(
        engine.on_versions(vec![record("1.0.0", "https://reg/a.tgz", "md5-abc123", None)]),
        Action::FetchBytes { .. }
    ));
    match engine.on_bytes(&bytes) {
        Action::Fail { name, kind } => {
            assert_eq!(name, "a");
            assert_eq!(kind, FailureKind::UnsupportedAlgorithm);
        }
        _ => panic!("an unknown digest algorithm must fail hard"),
    }
    assert_eq!(engine.lock_model().len(), 0);
}

#[test]
fn malformed_range_against_lock_entry_is_fatal() {
    let mut lock = LockModel::new();
    lock.insert("a".to_string(), entry("1.0.0", "https://reg/a.tgz", "sha512-xyz", None));
    let mut engine = Engine::new(vec![dep("a", "not-a-range")], lock);
    match engine.advance() {
        Action::Fail { name, kind } => {
            assert_eq!(name, "a");
            assert_eq!(kind, FailureKind::InvalidRange);
        }
        _ => panic!("an unparseable range must not fall back to anything"),
    }
}

#[test]
fn no_satisfying_version_in_registry_is_fatal() {
    let mut engine = Engine::new(vec![dep("a", "^2.0.0")], LockModel::new());
    assert!(matches!(engine.advance(), Action::FetchVersions { .. }));
    match engine.on_versions(vec![record("1.0.0", "https://reg/a.tgz", "sha512-x", None)]) {
        Action::Fail { name, kind } => {
            assert_eq!(name, "a");
            assert_eq!(kind, FailureKind::NotFound);
        }
        _ => panic!("an unsatisfiable range must fail with a not-found error"),
    }
}

#[test]
fn parent_receipt_is_not_written_when_a_child_fails() {
    let a_bytes: Vec<u8> = b"a tarball".to_vec();
    let a_digest = format_digest(&a_bytes);

    let mut engine = Engine::new(vec![dep("a", "^1.0.0")], LockModel::new());
    let (outcome, _, _) = drive(
        &mut engine,
        |name: &str| match name {
            "a" => vec![record(
                "1.0.0",
                "https://reg/a.tgz",
                &a_digest,
                Some(vec![dep("b", "^9.0.0")]),
            )],
            "b" => vec![record("1.0.0", "https://reg/b.tgz", "sha512-x", None)],
            other => panic!("unexpected registry query for {other}"),
        },
        |_url: &str| a_bytes.clone(),
    );
    match outcome {
        Action::Fail { name, kind } => {
            assert_eq!(name, "b");
            assert_eq!(kind, FailureKind::NotFound);
        }
        _ => panic!("the child's failure must abort the run"),
    }
    // The parent's lock entry falls due only after its whole subtree is
    // installed, so nothing was recorded.
    assert_eq!(engine.lock_model().len(), 0);
}

#[test]
fn empty_dependency_set_is_done_at_once() {
    let mut engine = Engine::new(Vec::new(), LockModel::new());
    assert!(matches!(engine.advance(), Action::Done));
    assert_eq!(engine.lock_model().len(), 0);
}

#[test]
fn lock_version_that_does_not_parse_is_fatal() {
    let mut lock = LockModel::new();
    lock.insert("a".to_string(), entry("not-a-version", "https://reg/a.tgz", "sha512-x", None));
    let mut engine = Engine::new(vec![dep("a", "^1.0.0")], lock);
    match engine.advance() {
        Action::Fail { name, kind } => {
            assert_eq!(name, "a");
            assert_eq!(kind, FailureKind::LockVersion);
        }
        _ => panic!("an unparseable recorded version must not be reused"),
    }
}
