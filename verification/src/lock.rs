//! Lock File Model: the persisted mapping from package name to the record of
//! what was installed for it — a resolution receipt, not a request.
//!
//! The model is a vector of named entries with pairwise-distinct names; its
//! mathematical view is the map from package name to entry.

use vstd::prelude::*;

verus! {

/// A dependency request: a package name and the semantic-version range asked
/// for it.
#[derive(Debug)]
pub struct Dep {
    pub name: String,
    pub range: String,
}

/// The mathematical value of a dependency request.
pub ghost struct DepV {
    pub name: Seq<char>,
    pub range: Seq<char>,
}

impl View for Dep {
    type V = DepV;

    open spec fn view(&self) -> DepV {
        DepV { name: self.name@, range: self.range@ }
    }
}

/// The views of a list of dependency requests.
pub open spec fn deps_view(s: Seq<Dep>) -> Seq<DepV> {
    s.map_values(|d: Dep| d@)
}

/// The view of a dependency list that may be absent.
pub open spec fn opt_deps_view(d: Option<Vec<Dep>>) -> Option<Seq<DepV>> {
    match d {
        Option::None => Option::None,
        Option::Some(v) => Option::Some(deps_view(v@)),
    }
}

/// What was installed for a package: the exact version, where its artifact
/// was fetched from, the integrity digest it was checked against, and the
/// dependencies it declared (absent when the registry record had none).
#[derive(Debug)]
pub struct LockEntry {
    pub version: String,
    pub resolved_url: String,
    pub integrity: String,
    pub dependencies: Option<Vec<Dep>>,
}

/// The mathematical value of a lock entry.
pub ghost struct LockEntryV {
    pub version: Seq<char>,
    pub resolved_url: Seq<char>,
    pub integrity: Seq<char>,
    pub dependencies: Option<Seq<DepV>>,
}

impl View for LockEntry {
    type V = LockEntryV;

    open spec fn view(&self) -> LockEntryV {
        LockEntryV {
            version: self.version@,
            resolved_url: self.resolved_url@,
            integrity: self.integrity@,
            dependencies: match self.dependencies {
                Option::None => Option::None,
                Option::Some(v) => Option::Some(deps_view(v@)),
            },
        }
    }
}

/// One named entry of the lock model.
#[derive(Debug)]
pub struct LockItem {
    pub name: String,
    pub entry: LockEntry,
}

/// The map that a sequence of named entries denotes; a later entry with the
/// same name shadows an earlier one.
pub open spec fn map_of(items: Seq<LockItem>) -> Map<Seq<char>, LockEntryV>
    decreases items.len(),
{
    if items.len() == 0 {
        Map::empty()
    } else {
        map_of(items.drop_last()).insert(items.last().name@, items.last().entry@)
    }
}

proof fn lemma_map_of_contains(items: Seq<LockItem>, n: Seq<char>)
    ensures
        map_of(items).contains_key(n) <==> exists|i: int|
            0 <= i < items.len() && items[i].name@ == n,
    decreases items.len(),
{
    if items.len() > 0 {
        lemma_map_of_contains(items.drop_last(), n);
        if items.last().name@ == n {
            assert(items[items.len() - 1].name@ == n);
        } else {
            if exists|i: int| 0 <= i < items.len() && items[i].name@ == n {
                let i = choose|i: int| 0 <= i < items.len() && items[i].name@ == n;
                assert(i < items.len() - 1);
                assert(items.drop_last()[i].name@ == n);
            }
        }
    }
}

proof fn lemma_map_of_index(items: Seq<LockItem>, i: int)
    requires
        0 <= i < items.len(),
        forall|j: int| i < j < items.len() ==> items[j].name@ != items[i].name@,
    ensures
        map_of(items).contains_key(items[i].name@),
        map_of(items)[items[i].name@] == items[i].entry@,
    decreases items.len(),
{
    if i < items.len() - 1 {
        assert(items.drop_last()[i] == items[i]);
        lemma_map_of_index(items.drop_last(), i);
    }
}

proof fn lemma_map_of_update(items: Seq<LockItem>, i: int, item: LockItem)
    requires
        0 <= i < items.len(),
        items[i].name@ == item.name@,
        forall|j: int| i < j < items.len() ==> items[j].name@ != item.name@,
    ensures
        map_of(items.update(i, item)) == map_of(items).insert(item.name@, item.entry@),
    decreases items.len(),
{
    let u = items.update(i, item);
    if i == items.len() - 1 {
        assert(u.drop_last() =~= items.drop_last());
        assert(u.last() == item);
        assert(map_of(u) =~= map_of(items).insert(item.name@, item.entry@));
    } else {
        lemma_map_of_update(items.drop_last(), i, item);
        assert(u.drop_last() =~= items.drop_last().update(i, item));
        assert(u.last() == items.last());
        assert(items.last().name@ != item.name@);
        assert(map_of(u) =~= map_of(items).insert(item.name@, item.entry@));
    }
}

proof fn lemma_map_of_push(items: Seq<LockItem>, item: LockItem)
    ensures
        map_of(items.push(item)) == map_of(items).insert(item.name@, item.entry@),
{
    assert(items.push(item).drop_last() =~= items);
    assert(items.push(item).last() == item);
}

/// The lock model: package name to lock entry, names pairwise distinct.
#[derive(Debug)]
pub struct LockModel {
    items: Vec<LockItem>,
}

impl View for LockModel {
    type V = Map<Seq<char>, LockEntryV>;

    closed spec fn view(&self) -> Map<Seq<char>, LockEntryV> {
        map_of(self.items@)
    }
}

impl LockModel {
    /// No entry is named twice.
    pub closed spec fn wf(&self) -> bool {
        forall|i: int, j: int|
            0 <= i < j < self.items@.len() ==> self.items@[i].name@ != self.items@[j].name@
    }

    /// The empty model: what a run starts from when no lock file exists.
    pub fn new() -> (r: LockModel)
        ensures
            r.wf(),
            r@ == Map::<Seq<char>, LockEntryV>::empty(),
    {
        LockModel { items: Vec::new() }
    }

    /// How many entries the model holds.
    pub closed spec fn spec_len(&self) -> nat {
        self.items@.len()
    }

    /// How many packages the model holds.
    pub fn len(&self) -> (n: usize)
        ensures
            n == self.spec_len(),
            self.wf() ==> n == self@.dom().len(),
    {
        proof {
            if self.wf() {
                lemma_map_of_len(self.items@);
            }
        }
        self.items.len()
    }

    /// The entry at a position, for walking the model (say, to persist it).
    pub fn item_at(&self, i: usize) -> (r: (&String, &LockEntry))
        requires
            i < self.spec_len(),
        ensures
            self.wf() ==> self@.contains_key(r.0@) && self@[r.0@] == r.1@,
    {
        proof {
            if self.wf() {
                lemma_map_of_index(self.items@, i as int);
            }
        }
        (&self.items[i].name, &self.items[i].entry)
    }

    /// Looks a package up by name.
    pub fn get(&self, name: &str) -> (r: Option<&LockEntry>)
        requires
            self.wf(),
        ensures
            match r {
                Option::Some(e) => self@.contains_key(name@) && e@ == self@[name@],
                Option::None => !self@.contains_key(name@),
            },
    {
        let key: String = name.to_owned();
        let n = self.items.len();
        let mut i: usize = 0;
        while i < n
            invariant
                self.wf(),
                n == self.items@.len(),
                i <= n,
                key@ == name@,
                forall|j: int| 0 <= j < i ==> self.items@[j].name@ != name@,
            decreases n - i,
        {
            if self.items[i].name.eq(&key) {
                proof {
                    lemma_map_of_index(self.items@, i as int);
                }
                return Option::Some(&self.items[i].entry);
            }
            i = i + 1;
        }
        proof {
            lemma_map_of_contains(self.items@, name@);
        }
        Option::None
    }

    /// Inserts or overwrites the entry for a package.
    pub fn insert(&mut self, name: String, entry: LockEntry)
        requires
            old(self).wf(),
        ensures
            final(self).wf(),
            final(self)@ == old(self)@.insert(name@, entry@),
    {
        let n = self.items.len();
        let mut i: usize = 0;
        while i < n
            invariant
                self.wf(),
                self.items@ == old(self).items@,
                n == self.items@.len(),
                i <= n,
                forall|j: int| 0 <= j < i ==> self.items@[j].name@ != name@,
            decreases n - i,
        {
            if self.items[i].name.eq(&name) {
                proof {
                    lemma_map_of_update(self.items@, i as int, LockItem { name, entry });
                }
                self.items[i] = LockItem { name, entry };
                return ;
            }
            i = i + 1;
        }
        proof {
            lemma_map_of_push(self.items@, LockItem { name, entry });
        }
        self.items.push(LockItem { name, entry });
    }
}

proof fn lemma_map_of_len(items: Seq<LockItem>)
    requires
        forall|i: int, j: int| 0 <= i < j < items.len() ==> items[i].name@ != items[j].name@,
    ensures
        map_of(items).dom().len() == items.len(),
        map_of(items).dom().finite(),
    decreases items.len(),
{
    if items.len() > 0 {
        lemma_map_of_len(items.drop_last());
        lemma_map_of_contains(items.drop_last(), items.last().name@);
        assert(!map_of(items.drop_last()).contains_key(items.last().name@));
    }
}

} // verus!
