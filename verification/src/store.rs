//! The keyed store the indexer installs resources in: a mapping from
//! resource identifier to serialized payload, plus a distinct derived data
//! cache that every run invalidates. Both layers are modelled as a
//! `Map<Seq<char>, Seq<char>>`; inserting an existing key overwrites it.

use vstd::prelude::*;

verus! {

broadcast use vstd::set::group_set_axioms, vstd::map::group_map_axioms;

/// The mapping a list of key/value rows denotes: rows are taken in order,
/// so of two rows with the same key the later one wins.
pub open spec fn entries_map(s: Seq<(String, String)>) -> Map<Seq<char>, Seq<char>>
    decreases s.len(),
{
    if s.len() == 0 {
        Map::empty()
    } else {
        entries_map(s.drop_last()).insert(s.last().0@, s.last().1@)
    }
}

/// No two rows share a key.
pub open spec fn unique_keys(s: Seq<(String, String)>) -> bool {
    forall|i: int, j: int| 0 <= i < j < s.len() ==> s[i].0@ != s[j].0@
}

/// Appending a row inserts its key.
pub(crate) proof fn lemma_entries_map_push(s: Seq<(String, String)>, e: (String, String))
    ensures
        entries_map(s.push(e)) == entries_map(s).insert(e.0@, e.1@),
{
    assert(s.push(e).drop_last() =~= s);
    assert(s.push(e).last() == e);
}

/// A key no row holds is not in the mapping.
proof fn lemma_entries_map_no_key(s: Seq<(String, String)>, k: Seq<char>)
    requires
        forall|i: int| 0 <= i < s.len() ==> s[i].0@ != k,
    ensures
        !entries_map(s).contains_key(k),
    decreases s.len(),
{
    if s.len() > 0 {
        assert(s[s.len() - 1].0@ != k);
        assert(forall|i: int| 0 <= i < s.drop_last().len() ==> s.drop_last()[i].0@ != k);
        lemma_entries_map_no_key(s.drop_last(), k);
    }
}

/// With unique keys, removing the row that holds a key and re-inserting its
/// value reconstructs the mapping.
proof fn lemma_entries_map_remove(s: Seq<(String, String)>, i: int)
    requires
        unique_keys(s),
        0 <= i < s.len(),
    ensures
        entries_map(s) == entries_map(s.remove(i)).insert(s[i].0@, s[i].1@),
    decreases s.len(),
{
    s.remove_ensures(i);
    if i == s.len() - 1 {
        assert(s.remove(i) =~= s.drop_last());
    } else {
        let dl = s.drop_last();
        assert(unique_keys(dl));
        lemma_entries_map_remove(dl, i);
        assert(dl.remove(i) =~= s.remove(i).drop_last());
        assert(s.remove(i).last() == s.last());
        // The removed key and the last row's key differ, so the two inserts
        // commute.
        assert(s[i].0@ != s.last().0@);
        assert(entries_map(dl.remove(i)).insert(s[i].0@, s[i].1@).insert(
            s.last().0@,
            s.last().1@,
        ) =~= entries_map(dl.remove(i)).insert(s.last().0@, s.last().1@).insert(
            s[i].0@,
            s[i].1@,
        ));
    }
}

/// With unique keys, the row holding a key gives the mapping's value for it.
proof fn lemma_entries_map_found(s: Seq<(String, String)>, i: int)
    requires
        unique_keys(s),
        0 <= i < s.len(),
    ensures
        entries_map(s).contains_key(s[i].0@),
        entries_map(s)[s[i].0@] == s[i].1@,
{
    lemma_entries_map_remove(s, i);
}

/// With unique keys, the mapping has exactly one entry per row.
proof fn lemma_entries_map_len(s: Seq<(String, String)>)
    requires
        unique_keys(s),
    ensures
        entries_map(s).dom().finite(),
        entries_map(s).dom().len() == s.len(),
    decreases s.len(),
{
    if s.len() > 0 {
        let dl = s.drop_last();
        assert(unique_keys(dl));
        lemma_entries_map_len(dl);
        assert(forall|i: int| 0 <= i < dl.len() ==> dl[i].0@ != s.last().0@);
        lemma_entries_map_no_key(dl, s.last().0@);
        assert(entries_map(s).dom() =~= entries_map(dl).dom().insert(s.last().0@));
    }
}

/// Finds the row holding `key`, if any.
fn find_entry(v: &Vec<(String, String)>, key: &String) -> (r: Option<usize>)
    ensures
        (match r {
            Some(i) => i < v@.len() && v@[i as int].0@ == key@,
            None => forall|i: int| 0 <= i < v@.len() ==> v@[i].0@ != key@,
        }),
{
    let mut i: usize = 0;
    while i < v.len()
        invariant
            i <= v@.len(),
            forall|j: int| 0 <= j < i ==> v@[j].0@ != key@,
        decreases v@.len() - i,
    {
        if v[i].0 == *key {
            return Some(i);
        }
        i += 1;
    }
    None
}

/// Inserts a key/value row, overwriting the row that held the key before.
fn put_entry(v: &mut Vec<(String, String)>, key: String, val: String)
    requires
        unique_keys(old(v)@),
    ensures
        unique_keys(final(v)@),
        entries_map(final(v)@) == entries_map(old(v)@).insert(key@, val@),
{
    let found = find_entry(v, &key);
    match found {
        Some(i) => {
            proof {
                lemma_entries_map_remove(old(v)@, i as int);
                old(v)@.remove_ensures(i as int);
            }
            v.remove(i);
            proof {
                assert(unique_keys(v@));
                assert(forall|j: int| 0 <= j < v@.len() ==> v@[j].0@ != key@);
                lemma_entries_map_push(v@, (key, val));
                assert(entries_map(old(v)@.remove(i as int)).insert(key@, val@) =~= entries_map(
                    old(v)@,
                ).insert(key@, val@));
            }
            v.push((key, val));
        },
        None => {
            proof {
                lemma_entries_map_push(v@, (key, val));
            }
            v.push((key, val));
        },
    }
}

/// The store: the current resource mapping and the derived data cache.
pub struct ResourceStore {
    resources: Vec<(String, String)>,
    data_cache: Vec<(String, String)>,
}

impl ResourceStore {
    /// The resource entries the store currently holds.
    pub closed spec fn resource_map(&self) -> Map<Seq<char>, Seq<char>> {
        entries_map(self.resources@)
    }

    /// The derived data-cache entries the store currently holds.
    pub closed spec fn cache_map(&self) -> Map<Seq<char>, Seq<char>> {
        entries_map(self.data_cache@)
    }

    /// Internal well-formedness: each layer holds one row per key.
    pub closed spec fn wf(&self) -> bool {
        unique_keys(self.resources@) && unique_keys(self.data_cache@)
    }

    /// An empty store.
    pub fn new() -> (s: ResourceStore)
        ensures
            s.wf(),
            s.resource_map() == Map::<Seq<char>, Seq<char>>::empty(),
            s.cache_map() == Map::<Seq<char>, Seq<char>>::empty(),
    {
        ResourceStore { resources: Vec::new(), data_cache: Vec::new() }
    }

    /// Purges every resource entry; the data cache is untouched.
    pub fn clear_resources(&mut self)
        requires
            old(self).wf(),
        ensures
            final(self).wf(),
            final(self).resource_map() == Map::<Seq<char>, Seq<char>>::empty(),
            final(self).cache_map() == old(self).cache_map(),
    {
        self.resources = Vec::new();
    }

    /// Invalidates the derived data cache; the resource entries are
    /// untouched.
    pub fn clear_data_cache(&mut self)
        requires
            old(self).wf(),
        ensures
            final(self).wf(),
            final(self).cache_map() == Map::<Seq<char>, Seq<char>>::empty(),
            final(self).resource_map() == old(self).resource_map(),
    {
        self.data_cache = Vec::new();
    }

    /// Installs a whole mapping in one bulk operation: every given entry is
    /// inserted in order, so the given rows overwrite entries the store
    /// already held, and of two given rows with the same key the later one
    /// wins.
    pub fn add_resources(&mut self, entries: Vec<(String, String)>)
        requires
            old(self).wf(),
        ensures
            final(self).wf(),
            final(self).resource_map() == old(self).resource_map().union_prefer_right(
                entries_map(entries@),
            ),
            final(self).cache_map() == old(self).cache_map(),
    {
        let mut i: usize = 0;
        proof {
            assert(old(self).resource_map().union_prefer_right(entries_map(entries@.take(0)))
                =~= old(self).resource_map());
        }
        while i < entries.len()
            invariant
                i <= entries@.len(),
                self.wf(),
                self.data_cache@ == old(self).data_cache@,
                self.resource_map() == old(self).resource_map().union_prefer_right(
                    entries_map(entries@.take(i as int)),
                ),
            decreases entries@.len() - i,
        {
            let key = entries[i].0.clone();
            let val = entries[i].1.clone();
            put_entry(&mut self.resources, key, val);
            proof {
                let t = entries@.take(i as int);
                let t1 = entries@.take(i + 1 as int);
                assert(t1.drop_last() =~= t);
                assert(t1.last() == entries@[i as int]);
                assert(entries_map(t1) == entries_map(t).insert(
                    entries@[i as int].0@,
                    entries@[i as int].1@,
                ));
                assert(old(self).resource_map().union_prefer_right(entries_map(t)).insert(
                    entries@[i as int].0@,
                    entries@[i as int].1@,
                ) =~= old(self).resource_map().union_prefer_right(entries_map(t1)));
            }
            i += 1;
        }
        proof {
            assert(entries@.take(entries@.len() as int) =~= entries@);
        }
    }

    /// Looks one resource up by its identifier.
    pub fn get_resource(&self, key: &String) -> (r: Option<String>)
        requires
            self.wf(),
        ensures
            (match r {
                Some(v) => self.resource_map().contains_key(key@) && v@
                    == self.resource_map()[key@],
                None => !self.resource_map().contains_key(key@),
            }),
    {
        let found = find_entry(&self.resources, key);
        match found {
            Some(i) => {
                proof {
                    lemma_entries_map_found(self.resources@, i as int);
                }
                Some(self.resources[i].1.clone())
            },
            None => {
                proof {
                    lemma_entries_map_no_key(self.resources@, key@);
                }
                None
            },
        }
    }

    /// The number of resources the store currently holds.
    pub fn resource_count(&self) -> (n: usize)
        requires
            self.wf(),
        ensures
            n == self.resource_map().dom().len(),
    {
        proof {
            lemma_entries_map_len(self.resources@);
        }
        self.resources.len()
    }

    /// Writes one derived entry into the data cache.
    pub fn put_cached(&mut self, key: String, val: String)
        requires
            old(self).wf(),
        ensures
            final(self).wf(),
            final(self).cache_map() == old(self).cache_map().insert(key@, val@),
            final(self).resource_map() == old(self).resource_map(),
    {
        put_entry(&mut self.data_cache, key, val);
    }

    /// Looks one derived entry up in the data cache.
    pub fn get_cached(&self, key: &String) -> (r: Option<String>)
        requires
            self.wf(),
        ensures
            (match r {
                Some(v) => self.cache_map().contains_key(key@) && v@ == self.cache_map()[key@],
                None => !self.cache_map().contains_key(key@),
            }),
    {
        let found = find_entry(&self.data_cache, key);
        match found {
            Some(i) => {
                proof {
                    lemma_entries_map_found(self.data_cache@, i as int);
                }
                Some(self.data_cache[i].1.clone())
            },
            None => {
                proof {
                    lemma_entries_map_no_key(self.data_cache@, key@);
                }
                None
            },
        }
    }
}

} // verus!
