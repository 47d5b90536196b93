//! Lock Reconciliation Orchestrator: the top-level algorithm that walks the
//! dependency tree, decides per package whether the lock entry can be reused
//! or a fresh registry resolution is needed, checks artifact integrity, lays
//! the packages out in a strictly nested tree, and accumulates the updated
//! lock model.
//!
//! The engine performs no I/O itself. It hands out one [`Action`] at a time
//! (query the registry, fetch bytes, extract an archive) and the caller
//! feeds each outcome back; a failure aborts the whole reconciliation, but
//! whatever the lock model holds by then is kept, to be persisted as is.

use vstd::prelude::*;

use crate::digest::verify_integrity;
use crate::digest::verify_spec;
use crate::digest::VerifyOutcome;
use crate::lock::deps_view;
use crate::lock::Dep;
use crate::lock::DepV;
use crate::lock::LockEntry;
use crate::lock::LockEntryV;
use crate::lock::opt_deps_view;
use crate::lock::LockModel;
use crate::resolve::candidate;
use crate::resolve::has_candidate;
use crate::resolve::has_exact;
use crate::resolve::is_highest_candidate;
use crate::resolve::resolve_index;
use crate::resolve::views_of;
use crate::resolve::ResolveError;
use crate::semver_ops::range_matches;
use crate::semver_ops::range_matches_version;
use crate::semver_ops::range_ok;
use crate::semver_ops::range_parses;
use crate::semver_ops::ver_ok;
use crate::semver_ops::version_parses;

verus! {

/// One published version of a package, as the registry reports it.
#[derive(Debug)]
pub struct VersionRecord {
    pub version: String,
    pub tarball: String,
    pub integrity: String,
    pub dependencies: Option<Vec<Dep>>,
}

/// The mathematical value of a registry version record.
pub ghost struct VersionRecordV {
    pub version: Seq<char>,
    pub tarball: Seq<char>,
    pub integrity: Seq<char>,
    pub dependencies: Option<Seq<DepV>>,
}

impl View for VersionRecord {
    type V = VersionRecordV;

    open spec fn view(&self) -> VersionRecordV {
        VersionRecordV {
            version: self.version@,
            tarball: self.tarball@,
            integrity: self.integrity@,
            dependencies: match self.dependencies {
                Option::None => Option::None,
                Option::Some(v) => Option::Some(deps_view(v@)),
            },
        }
    }
}

/// The views of a list of records.
pub open spec fn records_view(rs: Seq<VersionRecord>) -> Seq<VersionRecordV> {
    rs.map_values(|r: VersionRecord| r@)
}

/// The version strings of a list of records.
pub open spec fn record_versions(rs: Seq<VersionRecordV>) -> Seq<Seq<char>> {
    rs.map_values(|r: VersionRecordV| r.version)
}

/// The lock entry that installing a record leaves behind: a receipt of the
/// exact version, URL, digest and dependency set that were used.
pub open spec fn entry_of_record(r: VersionRecordV) -> LockEntryV {
    LockEntryV {
        version: r.version,
        resolved_url: r.tarball,
        integrity: r.integrity,
        dependencies: r.dependencies,
    }
}

/// The record at position `i` is the one the resolution policy picks from a
/// registry response: the verbatim string match if one exists, else a
/// highest candidate of a range that parses.
pub open spec fn chosen_record(range: Seq<char>, rs: Seq<VersionRecordV>, i: int) -> bool {
    &&& 0 <= i < rs.len()
    &&& if has_exact(range, record_versions(rs)) {
        rs[i].version == range
    } else {
        &&& range_ok(range)
        &&& is_highest_candidate(range, record_versions(rs), rs[i].version)
    }
}

/// Why reconciliation failed for a package.
#[derive(Clone, Copy, PartialEq, Eq, Structural, Debug)]
pub enum FailureKind {
    /// The requested range does not parse as a range expression.
    InvalidRange,
    /// The version recorded in the lock entry does not parse.
    LockVersion,
    /// No published version satisfies the requested range.
    NotFound,
    /// The integrity digest does not use a supported algorithm.
    UnsupportedAlgorithm,
    /// The artifact bytes do not match the integrity digest.
    IntegrityMismatch,
}

/// What the engine asks the caller to do next.
#[derive(Debug)]
pub enum Action {
    /// Every dependency has been reconciled.
    Done,
    /// Reconciliation of the named package failed; the run is over.
    Fail { name: String, kind: FailureKind },
    /// Ask the registry for the published versions of `name`, then call
    /// `on_versions`.
    FetchVersions { name: String },
    /// Fetch the artifact bytes at `url`, then call `on_bytes` with them.
    FetchBytes { url: String },
    /// Extract the verified artifact bytes into the directory `dest`, then
    /// call `on_extracted`.
    Extract { dest: String },
}

/// The mathematical value of an action.
pub ghost enum ActionV {
    Done,
    Fail { name: Seq<char>, kind: FailureKind },
    FetchVersions { name: Seq<char> },
    FetchBytes { url: Seq<char> },
    Extract { dest: Seq<char> },
}

impl View for Action {
    type V = ActionV;

    open spec fn view(&self) -> ActionV {
        match self {
            Action::Done => ActionV::Done,
            Action::Fail { name, kind } => ActionV::Fail { name: name@, kind: *kind },
            Action::FetchVersions { name } => ActionV::FetchVersions { name: name@ },
            Action::FetchBytes { url } => ActionV::FetchBytes { url: url@ },
            Action::Extract { dest } => ActionV::Extract { dest: dest@ },
        }
    }
}

/// A unit of pending work on the engine's stack.
enum Task {
    /// Decide how to satisfy one dependency request, installing under `dir`.
    Resolve { name: String, range: String, dir: String },
    /// All of a freshly resolved package's subtree is installed: record the
    /// receipt in the lock model.
    Commit { name: String, entry: LockEntry },
}

/// The mathematical value of a task.
pub ghost enum TaskV {
    Resolve { name: Seq<char>, range: Seq<char>, dir: Seq<char> },
    Commit { name: Seq<char>, entry: LockEntryV },
}

impl View for Task {
    type V = TaskV;

    closed spec fn view(&self) -> TaskV {
        match self {
            Task::Resolve { name, range, dir } => TaskV::Resolve {
                name: name@,
                range: range@,
                dir: dir@,
            },
            Task::Commit { name, entry } => TaskV::Commit { name: name@, entry: entry@ },
        }
    }
}

/// What outcome the engine is waiting for.
enum Pending {
    /// None: the next call must be `advance`.
    Idle,
    /// A registry response for `name`, requested as `range`.
    Versions { name: String, range: String, dir: String },
    /// The artifact bytes of `name`, to check against `integrity` and
    /// extract under `dir`.
    Bytes {
        name: String,
        integrity: Option<String>,
        dir: String,
        deps: Option<Vec<Dep>>,
        commit: Option<LockEntry>,
    },
    /// The extraction outcome for `name`.
    Extract { name: String, dir: String, deps: Option<Vec<Dep>>, commit: Option<LockEntry> },
    /// A failure was reported; the engine takes no further steps.
    Failed,
}

/// The mathematical value of the engine's waiting state.
pub ghost enum PendingV {
    Idle,
    Versions { name: Seq<char>, range: Seq<char>, dir: Seq<char> },
    Bytes {
        name: Seq<char>,
        integrity: Option<Seq<char>>,
        dir: Seq<char>,
        deps: Option<Seq<DepV>>,
        commit: Option<LockEntryV>,
    },
    Extract { name: Seq<char>, dir: Seq<char>, deps: Option<Seq<DepV>>, commit: Option<LockEntryV> },
    Failed,
}

impl View for Pending {
    type V = PendingV;

    closed spec fn view(&self) -> PendingV {
        match self {
            Pending::Idle => PendingV::Idle,
            Pending::Versions { name, range, dir } => PendingV::Versions {
                name: name@,
                range: range@,
                dir: dir@,
            },
            Pending::Bytes { name, integrity, dir, deps, commit } => PendingV::Bytes {
                name: name@,
                integrity: match integrity {
                    Option::None => Option::None,
                    Option::Some(s) => Option::Some(s@),
                },
                dir: dir@,
                deps: match deps {
                    Option::None => Option::None,
                    Option::Some(v) => Option::Some(deps_view(v@)),
                },
                commit: match commit {
                    Option::None => Option::None,
                    Option::Some(e) => Option::Some(e@),
                },
            },
            Pending::Extract { name, dir, deps, commit } => PendingV::Extract {
                name: name@,
                dir: dir@,
                deps: match deps {
                    Option::None => Option::None,
                    Option::Some(v) => Option::Some(deps_view(v@)),
                },
                commit: match commit {
                    Option::None => Option::None,
                    Option::Some(e) => Option::Some(e@),
                },
            },
            Pending::Failed => PendingV::Failed,
        }
    }
}

/// The directory a package is extracted into: its install root plus its own
/// name.
pub open spec fn install_dest(dir: Seq<char>, name: Seq<char>) -> Seq<char> {
    dir + "/"@ + name
}

/// The install root of a package's own dependencies: a private tree nested
/// beneath the package itself.
pub open spec fn child_root(dir: Seq<char>, name: Seq<char>) -> Seq<char> {
    install_dest(dir, name) + "/node_modules"@
}

/// Law: nesting is strict. A dependency `b` of a package `a` installed under
/// `root` is placed beneath `a`'s own copy, at `root/a/node_modules/b`, not
/// beside `a`.
pub proof fn lemma_nested_placement(root: Seq<char>, a: Seq<char>, b: Seq<char>)
    ensures
        install_dest(child_root(root, a), b) == root + "/"@ + a + "/node_modules"@ + "/"@ + b,
{
    assert(install_dest(child_root(root, a), b) =~= root + "/"@ + a + "/node_modules"@ + "/"@
        + b);
}

/// A lock entry that satisfies a request outright: the entry exists, the
/// range and the recorded version both parse, and the version satisfies the
/// range.
pub open spec fn entry_covered(
    lock: Map<Seq<char>, LockEntryV>,
    name: Seq<char>,
    range: Seq<char>,
) -> bool {
    &&& lock.contains_key(name)
    &&& range_ok(range)
    &&& ver_ok(lock[name].version)
    &&& range_matches(range, lock[name].version)
}

/// Every request of a dependency list is satisfied by the lock.
pub open spec fn deps_covered(lock: Map<Seq<char>, LockEntryV>, deps: Option<Seq<DepV>>) -> bool {
    match deps {
        Option::None => true,
        Option::Some(s) => forall|i: int|
            0 <= i < s.len() ==> #[trigger] entry_covered(lock, s[i].name, s[i].range),
    }
}

/// The lock is closed under dependencies: whatever any of its entries
/// requests, it also satisfies.
pub open spec fn lock_closed(lock: Map<Seq<char>, LockEntryV>) -> bool {
    forall|n: Seq<char>|
        #[trigger] lock.contains_key(n) ==> deps_covered(lock, lock[n].dependencies)
}

/// A task that a covering lock disposes of without the registry.
pub open spec fn task_quiet(lock: Map<Seq<char>, LockEntryV>, t: TaskV) -> bool {
    match t {
        TaskV::Resolve { name, range, dir: _ } => entry_covered(lock, name, range),
        TaskV::Commit { .. } => false,
    }
}

/// The result of letting the engine apply every commit task on top of the
/// stack: the lock after those insertions, and the remaining stack.
pub open spec fn apply_commits(lock: Map<Seq<char>, LockEntryV>, ts: Seq<TaskV>) -> (
    Map<Seq<char>, LockEntryV>,
    Seq<TaskV>,
)
    decreases ts.len(),
{
    if ts.len() == 0 {
        (lock, ts)
    } else {
        match ts.last() {
            TaskV::Commit { name, entry } => apply_commits(lock.insert(name, entry), ts.drop_last()),
            TaskV::Resolve { .. } => (lock, ts),
        }
    }
}

/// What taking up one dependency request decides, given the lock: reuse the
/// lock entry (fetch its recorded URL, registry untouched), resolve freshly
/// (ask the registry), or fail on an unparseable range or recorded version.
pub open spec fn resolve_step(
    lock: Map<Seq<char>, LockEntryV>,
    name: Seq<char>,
    range: Seq<char>,
    dir: Seq<char>,
) -> (ActionV, PendingV) {
    if lock.contains_key(name) {
        let entry = lock[name];
        if !range_ok(range) {
            (ActionV::Fail { name, kind: FailureKind::InvalidRange }, PendingV::Failed)
        } else if !ver_ok(entry.version) {
            (ActionV::Fail { name, kind: FailureKind::LockVersion }, PendingV::Failed)
        } else if range_matches(range, entry.version) {
            (
                ActionV::FetchBytes { url: entry.resolved_url },
                PendingV::Bytes {
                    name,
                    integrity: Option::Some(entry.integrity),
                    dir,
                    deps: entry.dependencies,
                    commit: Option::None,
                },
            )
        } else {
            (ActionV::FetchVersions { name }, PendingV::Versions { name, range, dir })
        }
    } else {
        (ActionV::FetchVersions { name }, PendingV::Versions { name, range, dir })
    }
}

/// The resolve tasks that an installed package's own dependency list puts on
/// the stack, last request pushed first, all installing under `dir`.
pub open spec fn child_tasks(deps: Option<Seq<DepV>>, dir: Seq<char>) -> Seq<TaskV> {
    match deps {
        Option::None => Seq::<TaskV>::empty(),
        Option::Some(ds) => Seq::new(
            ds.len(),
            |i: int|
                TaskV::Resolve {
                    name: ds[ds.len() - 1 - i].name,
                    range: ds[ds.len() - 1 - i].range,
                    dir: dir,
                },
        ),
    }
}

/// The reconciliation engine. Owns the lock model and the stack of pending
/// work; waits for exactly one outcome at a time.
pub struct Engine {
    lock: LockModel,
    stack: Vec<Task>,
    pending: Pending,
}

impl Engine {
    /// The lock model's mathematical value.
    pub closed spec fn lock_map(&self) -> Map<Seq<char>, LockEntryV> {
        self.lock@
    }

    /// The pending work, last task first to be taken up.
    pub closed spec fn tasks(&self) -> Seq<TaskV> {
        self.stack@.map_values(|t: Task| t@)
    }

    /// What outcome the engine is waiting for.
    pub closed spec fn waiting(&self) -> PendingV {
        self.pending@
    }

    /// The lock model never names a package twice.
    pub closed spec fn wf(&self) -> bool {
        self.lock.wf()
    }

    /// A warm state: the lock satisfies every pending request and every
    /// request any of its entries declares, and no insertion is owed. From
    /// such a state the engine never contacts the registry and never changes
    /// the lock — re-running reconciliation with an up-to-date lock is
    /// read-only (see the `quiet`-conditioned clauses of the step methods).
    pub open spec fn quiet(&self) -> bool {
        &&& lock_closed(self.lock_map())
        &&& forall|i: int|
            0 <= i < self.tasks().len() ==> #[trigger] task_quiet(self.lock_map(), self.tasks()[i])
        &&& match self.waiting() {
            PendingV::Idle => true,
            PendingV::Versions { .. } => false,
            PendingV::Bytes { commit, deps, .. } => commit is None && deps_covered(
                self.lock_map(),
                deps,
            ),
            PendingV::Extract { commit, deps, .. } => commit is None && deps_covered(
                self.lock_map(),
                deps,
            ),
            PendingV::Failed => true,
        }
    }

    /// Borrows the lock model, to persist it at the end of a run — after
    /// `Done`, after a failure, or after an outcome never arrived.
    pub fn lock_model(&self) -> (r: &LockModel)
        ensures
            r@ == self.lock_map(),
            self.wf() ==> r.wf(),
    {
        &self.lock
    }

    /// Starts a run: one resolve task per direct dependency, taken up in the
    /// given order, all installing under the top-level `node_modules`.
    pub fn new(deps: Vec<Dep>, lock: LockModel) -> (r: Engine)
        requires
            lock.wf(),
        ensures
            r.wf(),
            r.lock_map() == lock@,
            r.waiting() is Idle,
            r.tasks().len() == deps@.len(),
            forall|i: int|
                0 <= i < deps@.len() ==> r.tasks()[i] == (TaskV::Resolve {
                    name: deps@[deps@.len() - 1 - i].name@,
                    range: deps@[deps@.len() - 1 - i].range@,
                    dir: "./node_modules"@,
                }),
            lock_closed(lock@) && (forall|i: int|
                0 <= i < deps@.len() ==> #[trigger] entry_covered(
                    lock@,
                    deps@[i].name@,
                    deps@[i].range@,
                )) ==> r.quiet(),
    {
        let ghost deps0 = deps@;
        let mut deps = deps;
        let mut stack: Vec<Task> = Vec::new();
        while deps.len() != 0
            invariant
                deps@.len() + stack@.len() == deps0.len(),
                deps@ == deps0.take(deps@.len() as int),
                forall|i: int|
                    0 <= i < stack@.len() ==> #[trigger] stack@[i]@ == (TaskV::Resolve {
                        name: deps0[deps0.len() - 1 - i].name@,
                        range: deps0[deps0.len() - 1 - i].range@,
                        dir: "./node_modules"@,
                    }),
            decreases deps@.len(),
        {
            let d = deps.pop().unwrap();
            proof {
                assert(d == deps0[deps@.len() as int]);
            }
            let dir: String = "./node_modules".to_owned();
            stack.push(Task::Resolve { name: d.name, range: d.range, dir });
        }
        let r = Engine { lock, stack, pending: Pending::Idle };
        proof {
            if lock_closed(r.lock_map()) && (forall|i: int|
                0 <= i < deps0.len() ==> #[trigger] entry_covered(
                    r.lock_map(),
                    deps0[i].name@,
                    deps0[i].range@,
                )) {
                assert forall|i: int| 0 <= i < r.tasks().len() implies #[trigger] task_quiet(
                    r.lock_map(),
                    r.tasks()[i],
                ) by {
                    assert(entry_covered(
                        r.lock_map(),
                        deps0[deps0.len() - 1 - i].name@,
                        deps0[deps0.len() - 1 - i].range@,
                    ));
                }
            }
        }
        r
    }

    /// Takes up pending tasks until an outcome is needed: applies every
    /// commit on top of the stack, then decides the next dependency request
    /// by `resolve_step`, or reports that everything is reconciled.
    pub fn advance(&mut self) -> (r: Action)
        requires
            old(self).wf(),
            old(self).waiting() is Idle,
        ensures
            final(self).wf(),
            ({
                let (lock1, ts1) = apply_commits(old(self).lock_map(), old(self).tasks());
                &&& final(self).lock_map() == lock1
                &&& if ts1.len() == 0 {
                    &&& r@ == ActionV::Done
                    &&& final(self).tasks() == ts1
                    &&& final(self).waiting() == PendingV::Idle
                } else {
                    &&& ts1.last() is Resolve
                    &&& final(self).tasks() == ts1.drop_last()
                    &&& (r@, final(self).waiting()) == resolve_step(
                        lock1,
                        ts1.last()->Resolve_name,
                        ts1.last()->Resolve_range,
                        ts1.last()->Resolve_dir,
                    )
                }
            }),
            old(self).quiet() ==> final(self).quiet() && !(r@ is FetchVersions)
                && final(self).lock_map() == old(self).lock_map(),
    {
        loop
            invariant
                self.wf(),
                self.waiting() is Idle,
                apply_commits(self.lock_map(), self.tasks()) == apply_commits(
                    old(self).lock_map(),
                    old(self).tasks(),
                ),
                old(self).quiet() ==> self.quiet() && self.lock_map() == old(self).lock_map(),
            decreases self.stack@.len(),
        {
            let ghost pre = *self;
            match self.stack.pop() {
                Option::None => {
                    return Action::Done;
                },
                Option::Some(t) => {
                    proof {
                        assert(t@ == pre.tasks().last());
                        assert(self.tasks() =~= pre.tasks().drop_last());
                    }
                    match t {
                        Task::Commit { name, entry } => {
                            proof {
                                if old(self).quiet() {
                                    assert(task_quiet(pre.lock_map(), pre.tasks().last()));
                                }
                            }
                            self.lock.insert(name, entry);
                        },
                        Task::Resolve { name, range, dir } => {
                            let hit = match self.lock.get(name.as_str()) {
                                Option::Some(entry) => Option::Some(
                                    (
                                        entry.version.clone(),
                                        entry.resolved_url.clone(),
                                        entry.integrity.clone(),
                                        copy_deps_opt(&entry.dependencies),
                                    ),
                                ),
                                Option::None => Option::None,
                            };
                            proof {
                                if old(self).quiet() {
                                    assert(task_quiet(pre.lock_map(), pre.tasks().last()));
                                }
                            }
                            match hit {
                                Option::Some((ver, url, integ, deps)) => {
                                    if !range_parses(range.as_str()) {
                                        self.pending = Pending::Failed;
                                        return Action::Fail {
                                            name,
                                            kind: FailureKind::InvalidRange,
                                        };
                                    }
                                    if !version_parses(ver.as_str()) {
                                        self.pending = Pending::Failed;
                                        return Action::Fail {
                                            name,
                                            kind: FailureKind::LockVersion,
                                        };
                                    }
                                    if range_matches_version(range.as_str(), ver.as_str()) {
                                        self.pending = Pending::Bytes {
                                            name,
                                            integrity: Option::Some(integ),
                                            dir,
                                            deps,
                                            commit: Option::None,
                                        };
                                        return Action::FetchBytes { url };
                                    }
                                    let announced = name.clone();
                                    self.pending = Pending::Versions { name, range, dir };
                                    return Action::FetchVersions { name: announced };
                                },
                                Option::None => {
                                    let announced = name.clone();
                                    self.pending = Pending::Versions { name, range, dir };
                                    return Action::FetchVersions { name: announced };
                                },
                            }
                        },
                    }
                },
            }
        }
    }

    /// Feeds back a registry response: the published versions of the package
    /// the engine asked about. Runs the resolution policy over them and either
    /// asks for the chosen record's artifact — owing a lock insertion once
    /// the package's subtree is installed — or fails the run.
    pub fn on_versions(&mut self, records: Vec<VersionRecord>) -> (r: Action)
        requires
            old(self).wf(),
            old(self).waiting() is Versions,
        ensures
            final(self).wf(),
            final(self).lock_map() == old(self).lock_map(),
            final(self).tasks() == old(self).tasks(),
            ({
                let p = old(self).waiting();
                let rs = records_view(records@);
                let vs = record_versions(rs);
                let name = p->Versions_name;
                let range = p->Versions_range;
                let dir = p->Versions_dir;
                if has_exact(range, vs) || (range_ok(range) && has_candidate(range, vs)) {
                    exists|i: int|
                        #[trigger] chosen_record(range, rs, i) && r@ == (ActionV::FetchBytes {
                            url: rs[i].tarball,
                        }) && final(self).waiting() == (PendingV::Bytes {
                            name,
                            integrity: Option::Some(rs[i].integrity),
                            dir,
                            deps: rs[i].dependencies,
                            commit: Option::Some(entry_of_record(rs[i])),
                        })
                } else if !range_ok(range) {
                    &&& r@ == (ActionV::Fail { name, kind: FailureKind::InvalidRange })
                    &&& final(self).waiting() is Failed
                } else {
                    &&& r@ == (ActionV::Fail { name, kind: FailureKind::NotFound })
                    &&& final(self).waiting() is Failed
                }
            }),
    {
        let mut p = Pending::Idle;
        core::mem::swap(&mut p, &mut self.pending);
        match p {
            Pending::Versions { name, range, dir } => {
                let ghost rs = records_view(records@);
                let mut versions: Vec<String> = Vec::new();
                let mut i: usize = 0;
                while i < records.len()
                    invariant
                        i <= records@.len(),
                        versions@.len() == i,
                        forall|j: int| 0 <= j < i ==> #[trigger] versions@[j] == records@[j].version,
                    decreases records@.len() - i,
                {
                    versions.push(records[i].version.clone());
                    i = i + 1;
                }
                proof {
                    assert(views_of(versions@) =~= record_versions(rs));
                }
                let mut records = records;
                match resolve_index(range.as_str(), &versions) {
                    Ok(i) => {
                        let rec = records.remove(i);
                        let url = rec.tarball.clone();
                        let integ = rec.integrity.clone();
                        let deps = copy_deps_opt(&rec.dependencies);
                        proof {
                            assert(rec@ == rs[i as int]);
                            assert(versions@[i as int]@ == rs[i as int].version);
                            assert(record_versions(rs)[i as int] == rs[i as int].version);
                            assert(chosen_record(range@, rs, i as int));
                            if !has_exact(range@, record_versions(rs)) {
                                assert(candidate(range@, record_versions(rs)[i as int]));
                                assert(has_candidate(range@, record_versions(rs)));
                            }
                            assert(opt_deps_view(rec.dependencies) == rs[i as int].dependencies);
                        }
                        let entry = LockEntry {
                            version: rec.version,
                            resolved_url: rec.tarball,
                            integrity: rec.integrity,
                            dependencies: rec.dependencies,
                        };
                        self.pending = Pending::Bytes {
                            name,
                            integrity: Option::Some(integ),
                            dir,
                            deps,
                            commit: Option::Some(entry),
                        };
                        Action::FetchBytes { url }
                    },
                    Err(ResolveError::InvalidRange) => {
                        proof {
                            assert(!has_exact(range@, record_versions(rs)));
                            assert(!range_ok(range@));
                        }
                        self.pending = Pending::Failed;
                        Action::Fail { name, kind: FailureKind::InvalidRange }
                    },
                    Err(ResolveError::NotFound) => {
                        proof {
                            assert(!has_exact(range@, record_versions(rs)));
                            assert(!has_candidate(range@, record_versions(rs)));
                        }
                        self.pending = Pending::Failed;
                        Action::Fail { name, kind: FailureKind::NotFound }
                    },
                }
            },
            _ => vstd::pervasive::unreached(),
        }
    }

    /// Feeds back fetched artifact bytes. Checks them against the expected
    /// integrity digest when one is present (a reused lock entry's digest or
    /// a registry record's); on a pass — or when verification was knowingly
    /// skipped for want of a digest — asks for extraction into the package's
    /// own directory under its install root.
    pub fn on_bytes(&mut self, bytes: &Vec<u8>) -> (r: Action)
        requires
            old(self).wf(),
            old(self).waiting() is Bytes,
        ensures
            final(self).wf(),
            final(self).lock_map() == old(self).lock_map(),
            final(self).tasks() == old(self).tasks(),
            ({
                let p = old(self).waiting();
                let name = p->Bytes_name;
                let integrity = p->Bytes_integrity;
                let dir = p->Bytes_dir;
                let deps = p->Bytes_deps;
                let commit = p->Bytes_commit;
                let outcome = match integrity {
                    Option::Some(d) => verify_spec(d, bytes@),
                    Option::None => VerifyOutcome::Pass,
                };
                match outcome {
                    VerifyOutcome::Pass => {
                        &&& r@ == (ActionV::Extract { dest: install_dest(dir, name) })
                        &&& final(self).waiting() == (PendingV::Extract { name, dir, deps, commit })
                    },
                    VerifyOutcome::UnsupportedAlgorithm => {
                        &&& r@ == (ActionV::Fail { name, kind: FailureKind::UnsupportedAlgorithm })
                        &&& final(self).waiting() is Failed
                    },
                    VerifyOutcome::Mismatch => {
                        &&& r@ == (ActionV::Fail { name, kind: FailureKind::IntegrityMismatch })
                        &&& final(self).waiting() is Failed
                    },
                }
            }),
            old(self).quiet() ==> final(self).quiet() && !(r@ is FetchVersions),
    {
        let mut p = Pending::Idle;
        core::mem::swap(&mut p, &mut self.pending);
        match p {
            Pending::Bytes { name, integrity, dir, deps, commit } => {
                match &integrity {
                    Option::Some(d) => {
                        match verify_integrity(d.as_str(), bytes) {
                            VerifyOutcome::Pass => {},
                            VerifyOutcome::UnsupportedAlgorithm => {
                                self.pending = Pending::Failed;
                                proof {
                                    if old(self).quiet() {
                                        assert(self.lock_map() == old(self).lock_map());
                                        assert(self.tasks() == old(self).tasks());
                                        assert forall|i: int|
                                            0 <= i < self.tasks().len() implies task_quiet(
                                            self.lock_map(),
                                            #[trigger] self.tasks()[i],
                                        ) by {
                                            assert(task_quiet(
                                                old(self).lock_map(),
                                                old(self).tasks()[i],
                                            ));
                                        }
                                    }
                                }
                                return Action::Fail {
                                    name,
                                    kind: FailureKind::UnsupportedAlgorithm,
                                };
                            },
                            VerifyOutcome::Mismatch => {
                                self.pending = Pending::Failed;
                                proof {
                                    if old(self).quiet() {
                                        assert(self.lock_map() == old(self).lock_map());
                                        assert(self.tasks() == old(self).tasks());
                                        assert forall|i: int|
                                            0 <= i < self.tasks().len() implies task_quiet(
                                            self.lock_map(),
                                            #[trigger] self.tasks()[i],
                                        ) by {
                                            assert(task_quiet(
                                                old(self).lock_map(),
                                                old(self).tasks()[i],
                                            ));
                                        }
                                    }
                                }
                                return Action::Fail { name, kind: FailureKind::IntegrityMismatch };
                            },
                        }
                    },
                    Option::None => {},
                }
                let dest = dir.clone().concat("/").concat(name.as_str());
                self.pending = Pending::Extract { name, dir, deps, commit };
                proof {
                    if old(self).quiet() {
                        assert(self.lock_map() == old(self).lock_map());
                        assert(self.tasks() == old(self).tasks());
                        assert forall|i: int|
                            0 <= i < self.tasks().len() implies task_quiet(
                            self.lock_map(),
                            #[trigger] self.tasks()[i],
                        ) by {
                            assert(task_quiet(old(self).lock_map(), old(self).tasks()[i]));
                        }
                    }
                }
                Action::Extract { dest }
            },
            _ => vstd::pervasive::unreached(),
        }
    }

    /// Feeds back that extraction finished. Queues the installed package's
    /// own dependency requests, to be reconciled beneath it, and — for a
    /// freshly resolved package — the lock insertion that falls due once
    /// that subtree is done.
    pub fn on_extracted(&mut self)
        requires
            old(self).wf(),
            old(self).waiting() is Extract,
        ensures
            final(self).wf(),
            final(self).lock_map() == old(self).lock_map(),
            final(self).waiting() == PendingV::Idle,
            ({
                let p = old(self).waiting();
                let name = p->Extract_name;
                let dir = p->Extract_dir;
                let deps = p->Extract_deps;
                let commit = p->Extract_commit;
                let commits = match commit {
                    Option::None => Seq::<TaskV>::empty(),
                    Option::Some(e) => seq![TaskV::Commit { name, entry: e }],
                };
                final(self).tasks() == old(self).tasks() + commits + child_tasks(
                    deps,
                    child_root(dir, name),
                )
            }),
            old(self).quiet() ==> final(self).quiet(),
    {
        let mut p = Pending::Idle;
        core::mem::swap(&mut p, &mut self.pending);
        match p {
            Pending::Extract { name, dir, deps, commit } => {
                let cdir = dir.concat("/").concat(name.as_str()).concat("/node_modules");
                match commit {
                    Option::Some(entry) => {
                        let ghost cname = name@;
                        let ghost centry = entry@;
                        self.stack.push(Task::Commit { name, entry });
                        proof {
                            assert(self.tasks() =~= old(self).tasks() + seq![
                                TaskV::Commit { name: cname, entry: centry },
                            ]);
                        }
                    },
                    Option::None => {
                        proof {
                            assert(self.tasks() =~= old(self).tasks() + Seq::<TaskV>::empty());
                        }
                    },
                }
                let ghost base = self.tasks();
                let ghost base_stack = self.stack@;
                match deps {
                    Option::Some(ds) => {
                        let ghost dv = deps_view(ds@);
                        let mut ds = ds;
                        while ds.len() != 0
                            invariant
                                self.wf(),
                                self.waiting() is Idle,
                                self.lock_map() == old(self).lock_map(),
                                cdir@ == child_root(
                                    old(self).waiting()->Extract_dir,
                                    old(self).waiting()->Extract_name,
                                ),
                                ds@.len() <= dv.len(),
                                forall|j: int| 0 <= j < ds@.len() ==> #[trigger] ds@[j]@ == dv[j],
                                self.stack@.len() == base_stack.len() + dv.len() - ds@.len(),
                                forall|x: int|
                                    0 <= x < base_stack.len() ==> #[trigger] self.stack@[x]
                                        == base_stack[x],
                                forall|j: int|
                                    0 <= j < dv.len() - ds@.len() ==> (#[trigger] self.stack@[base_stack.len() + j])@
                                        == (TaskV::Resolve {
                                        name: dv[dv.len() - 1 - j].name,
                                        range: dv[dv.len() - 1 - j].range,
                                        dir: cdir@,
                                    }),
                            decreases ds@.len(),
                        {
                            let ghost m = ds@.len() as int;
                            let d = ds.pop().unwrap();
                            proof {
                                assert(d@ == dv[m - 1]);
                            }
                            self.stack.push(
                                Task::Resolve { name: d.name, range: d.range, dir: cdir.clone() },
                            );
                        }
                        proof {
                            assert(base.len() == base_stack.len());
                            assert forall|x: int|
                                0 <= x < self.tasks().len() implies #[trigger] self.tasks()[x]
                                == (base + child_tasks(Option::Some(dv), cdir@))[x] by {
                                assert(self.tasks()[x] == self.stack@[x]@);
                                if x < base_stack.len() {
                                    assert(self.stack@[x] == base_stack[x]);
                                    assert(base[x] == base_stack[x]@);
                                } else {
                                    let j = x - base_stack.len();
                                    assert((self.stack@[base_stack.len() + j])@
                                        == (TaskV::Resolve {
                                        name: dv[dv.len() - 1 - j].name,
                                        range: dv[dv.len() - 1 - j].range,
                                        dir: cdir@,
                                    }));
                                    assert(child_tasks(Option::Some(dv), cdir@)[j]
                                        == (TaskV::Resolve {
                                        name: dv[dv.len() - 1 - j].name,
                                        range: dv[dv.len() - 1 - j].range,
                                        dir: cdir@,
                                    }));
                                }
                            }
                            assert(self.tasks() =~= base + child_tasks(Option::Some(dv), cdir@));
                            if old(self).quiet() {
                                assert forall|x: int| 0 <= x < self.tasks().len() implies task_quiet(
                                    self.lock_map(),
                                    #[trigger] self.tasks()[x],
                                ) by {
                                    if x < base.len() {
                                        assert(base[x] == old(self).tasks()[x]);
                                        assert(task_quiet(
                                            old(self).lock_map(),
                                            old(self).tasks()[x],
                                        ));
                                    } else {
                                        let idx = dv.len() - 1 - (x - base.len());
                                        assert(entry_covered(
                                            self.lock_map(),
                                            dv[idx].name,
                                            dv[idx].range,
                                        ));
                                    }
                                }
                            }
                        }
                    },
                    Option::None => {
                        proof {
                            assert(self.tasks() =~= base + child_tasks(
                                Option::<Seq<DepV>>::None,
                                cdir@,
                            ));
                            if old(self).quiet() {
                                assert forall|x: int| 0 <= x < self.tasks().len() implies task_quiet(
                                    self.lock_map(),
                                    #[trigger] self.tasks()[x],
                                ) by {
                                    assert(task_quiet(old(self).lock_map(), old(self).tasks()[x]));
                                }
                            }
                        }
                    },
                }
            },
            _ => vstd::pervasive::unreached(),
        }
    }
}

/// Duplicates a dependency list, value for value.
fn copy_deps(v: &Vec<Dep>) -> (r: Vec<Dep>)
    ensures
        deps_view(r@) == deps_view(v@),
{
    let mut r: Vec<Dep> = Vec::new();
    let mut i: usize = 0;
    while i < v.len()
        invariant
            i <= v@.len(),
            r@.len() == i,
            forall|j: int| 0 <= j < i ==> #[trigger] r@[j]@ == v@[j]@,
        decreases v@.len() - i,
    {
        let name = v[i].name.clone();
        let range = v[i].range.clone();
        r.push(Dep { name, range });
        i = i + 1;
    }
    proof {
        assert(deps_view(r@) =~= deps_view(v@));
    }
    r
}

/// Duplicates a dependency list that may be absent.
fn copy_deps_opt(v: &Option<Vec<Dep>>) -> (r: Option<Vec<Dep>>)
    ensures
        opt_deps_view(r) == opt_deps_view(*v),
{
    match v {
        Option::None => Option::None,
        Option::Some(ds) => Option::Some(copy_deps(ds)),
    }
}

} // verus!
