//! Local cache of item data fetched from the wiki.
//!
//! The cache maps an item name to its resolved data. It is loaded once at
//! startup, consulted before any wiki request, and written back after new
//! items are added; reading and writing the JSON file is left to the caller.
use vstd::prelude::*;

use crate::gear::Slot;
use crate::install::{join_path, join_path_spec};
use crate::stat::StatMap;
use crate::text::str_eq;

verus! {

/// One item's resolved data as stored in the cache.
#[derive(Debug, Clone)]
pub struct CachedItem {
    pub name: String,
    pub slot: Slot,
    /// Stat values; stats not on the item are 0.
    pub stats: StatMap,
}

/// The in-memory cache, backed by a JSON file.
#[derive(Debug)]
pub struct Cache {
    path: String,
    entries: Vec<(String, CachedItem)>,
    dirty: bool,
}

impl Cache {
    /// The keys, in storage order.
    pub closed spec fn keys(&self) -> Seq<Seq<char>> {
        self.entries@.map_values(|e: (String, CachedItem)| e.0@)
    }

    #[verifier::type_invariant]
    spec fn keys_unique(&self) -> bool {
        self.keys().no_duplicates()
    }

    /// The cached items by name.
    pub closed spec fn view(&self) -> Map<Seq<char>, CachedItem> {
        Map::new(|k: Seq<char>| self.keys().contains(k), |k: Seq<char>| self.entries@[self.keys().index_of(k)].1)
    }

    /// Whether items were added since the cache was created or loaded.
    pub closed spec fn dirty_spec(&self) -> bool {
        self.dirty
    }

    /// The file backing the cache.
    pub closed spec fn path_spec(&self) -> Seq<char> {
        self.path@
    }

    /// A new empty cache at `path`.
    pub fn empty(path: &str) -> (c: Cache)
        ensures
            c.view() == Map::<Seq<char>, CachedItem>::empty(),
            !c.dirty_spec(),
            c.path_spec() == path@,
    {
        let c = Cache { path: path.to_owned(), entries: Vec::new(), dirty: false };
        assert(c.view() =~= Map::<Seq<char>, CachedItem>::empty());
        c
    }

    fn position(&self, name: &str) -> (r: Option<usize>)
        ensures
            r matches Some(i) ==> i < self.entries@.len() && self.keys()[i as int] == name@,
            r is None ==> !self.keys().contains(name@),
    {
        let mut k: usize = 0;
        while k < self.entries.len()
            invariant
                k <= self.entries@.len(),
                forall|j: int| 0 <= j < k ==> #[trigger] self.keys()[j] != name@,
            decreases self.entries@.len() - k,
        {
            assert(self.keys()[k as int] == self.entries@[k as int].0@);
            if str_eq(self.entries[k].0.as_str(), name) {
                return Some(k);
            }
            k += 1;
        }
        None
    }

    /// The cached item named `name`, if any.
    pub fn get(&self, name: &str) -> (r: Option<&CachedItem>)
        ensures
            r is Some <==> self.view().dom().contains(name@),
            r matches Some(it) ==> *it == self.view()[name@],
    {
        proof {
            use_type_invariant(self);
        }
        match self.position(name) {
            Some(i) => {
                proof {
                    let ks = self.keys();
                    let j = ks.index_of(name@);
                    assert(ks[j] == name@);
                    assert(j == i as int) by {
                        if j != i as int {
                            assert(ks[j] == ks[i as int]);
                        }
                    }
                }
                Some(&self.entries[i].1)
            },
            None => None,
        }
    }

    /// Inserts or replaces `item` under its name, and marks the cache dirty.
    pub fn insert(&mut self, item: CachedItem)
        ensures
            final(self).view() == old(self).view().insert(item.name@, item),
            final(self).dirty_spec(),
            final(self).path_spec() == old(self).path_spec(),
    {
        proof {
            use_type_invariant(&*self);
        }
        let ghost before = *self;
        let key = item.name.clone();
        match self.position(item.name.as_str()) {
            Some(i) => {
                let mut entries: Vec<(String, CachedItem)> = Vec::new();
                std::mem::swap(&mut entries, &mut self.entries);
                entries.set(i, (key, item));
                let ghost ks = entries@.map_values(|e: (String, CachedItem)| e.0@);
                assert(ks =~= before.keys());
                self.entries = entries;
                self.dirty = true;
                proof {
                    let bk = before.keys();
                    assert(self.keys() =~= bk);
                    assert forall|k: Seq<char>| #[trigger] self.view().dom().contains(k) == before.view().insert(item.name@, item).dom().contains(k) by {}
                    assert forall|k: Seq<char>| self.view().dom().contains(k) implies #[trigger] self.view()[k] == before.view().insert(item.name@, item)[k] by {
                        let j = bk.index_of(k);
                        if k == item.name@ {
                            assert(bk[j] == bk[i as int]);
                        } else {
                            assert(j != i as int);
                        }
                    }
                    assert(self.view() =~= before.view().insert(item.name@, item));
                }
            },
            None => {
                let mut entries: Vec<(String, CachedItem)> = Vec::new();
                std::mem::swap(&mut entries, &mut self.entries);
                entries.push((key, item));
                proof {
                    let ks = entries@.map_values(|e: (String, CachedItem)| e.0@);
                    assert(ks =~= before.keys().push(item.name@));
                    assert forall|a: int, b: int| 0 <= a < ks.len() && 0 <= b < ks.len() && a != b implies ks[a] != ks[b] by {
                        if a < ks.len() - 1 && b < ks.len() - 1 {
                            assert(ks[a] == before.keys()[a]);
                            assert(ks[b] == before.keys()[b]);
                        } else if a == ks.len() - 1 {
                            assert(ks[b] == before.keys()[b]);
                        } else {
                            assert(ks[a] == before.keys()[a]);
                        }
                    }
                }
                self.entries = entries;
                self.dirty = true;
                proof {
                    let bk = before.keys();
                    assert(self.keys() =~= bk.push(item.name@));
                    assert forall|k: Seq<char>| #[trigger] self.view().dom().contains(k) == before.view().insert(item.name@, item).dom().contains(k) by {
                        let ks = self.keys();
                        if bk.contains(k) {
                            let j = choose|j: int| 0 <= j < bk.len() && bk[j] == k;
                            assert(ks[j] == k);
                        }
                        if k == item.name@ {
                            assert(ks[ks.len() - 1] == k);
                        }
                        if ks.contains(k) {
                            let j = choose|j: int| 0 <= j < ks.len() && ks[j] == k;
                            if j < bk.len() {
                                assert(bk[j] == k);
                            }
                        }
                    }
                    assert forall|k: Seq<char>| self.view().dom().contains(k) implies #[trigger] self.view()[k] == before.view().insert(item.name@, item)[k] by {
                        let ks = self.keys();
                        let j = ks.index_of(k);
                        if k == item.name@ {
                            if j < bk.len() {
                                assert(bk[j] == k);
                            }
                        } else {
                            let j0 = bk.index_of(k);
                            assert(ks[j0] == k);
                            if j != j0 {
                                assert(ks[j] == ks[j0]);
                            }
                        }
                    }
                    assert(self.view() =~= before.view().insert(item.name@, item));
                }
            },
        }
    }

    /// How many items are cached.
    pub fn len(&self) -> (r: usize)
        ensures
            r == self.view().dom().len(),
            self.view().dom().finite(),
    {
        proof {
            use_type_invariant(self);
            self.keys().unique_seq_to_set();
            assert(self.view().dom() =~= self.keys().to_set());
        }
        self.entries.len()
    }

    /// Whether no item is cached.
    pub fn is_empty(&self) -> (r: bool)
        ensures
            r == (self.view().dom().len() == 0),
    {
        self.len() == 0
    }

    /// Whether items were added since the cache was created or loaded.
    pub fn is_dirty(&self) -> (r: bool)
        ensures
            r == self.dirty_spec(),
    {
        self.dirty
    }

    /// The file backing the cache.
    pub fn path(&self) -> (r: &str)
        ensures
            r@ == self.path_spec(),
    {
        self.path.as_str()
    }
}

/// The standard cache file: `lgo_cache.json` in the directory holding the
/// plugin data file, or in the current directory (`.`) when there is none.
pub fn default_cache_path(plugindata_dir: Option<&str>) -> (r: String)
    ensures
        r@ == join_path_spec(
            match plugindata_dir {
                Some(d) => d@,
                None => "."@,
            },
            "lgo_cache.json"@,
        ),
{
    match plugindata_dir {
        Some(d) => join_path(d, "lgo_cache.json"),
        None => join_path(".", "lgo_cache.json"),
    }
}

/// What a cache lookup finds after an insert: the inserted item under its
/// name, and for every other name what was there before.
pub proof fn lemma_insert_then_get(before: Map<Seq<char>, CachedItem>, item: CachedItem, query: Seq<char>)
    ensures
        ({
            let after = before.insert(item.name@, item);
            if query == item.name@ {
                after.dom().contains(query) && after[query] == item
            } else {
                after.dom().contains(query) == before.dom().contains(query) && (before.dom().contains(query) ==> after[query]
                    == before[query])
            }
        }),
{
}

/// The size of a cache after an insert: one more than before exactly when
/// the item's name was not cached yet.
pub proof fn lemma_insert_len(before: Map<Seq<char>, CachedItem>, item: CachedItem)
    requires
        before.dom().finite(),
    ensures
        before.insert(item.name@, item).dom().finite(),
        before.insert(item.name@, item).dom().len() == before.dom().len() + if before.dom().contains(item.name@) {
            0int
        } else {
            1int
        },
{
    assert(before.insert(item.name@, item).dom() =~= before.dom().insert(item.name@));
}

} // verus!
