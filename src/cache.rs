//! A bounded in-memory cache of extraction results keyed by method and
//! locator. When it grows past its capacity it is cleared as a whole before
//! the next insertion (not least-recently-used).
use vstd::prelude::*;

use crate::types::IconData;

verus! {

/// Entries beyond which the next insertion first clears the cache.
pub const CACHE_CAPACITY: usize = 1024;

/// A cached result.
pub struct CacheEntry {
    pub method: String,
    pub locator: String,
    pub icon: IconData,
}

/// The cache itself; it is shared between callers behind a lock.
pub struct IconCache {
    entries: Vec<CacheEntry>,
}

/// A copy of an icon with the same payload and dimensions.
pub fn copy_icon(d: &IconData) -> (r: IconData)
    ensures
        r == *d,
{
    IconData { base64: d.base64.clone(), width: d.width, height: d.height }
}

/// The result cached for `(method, locator)` in `entries`, if any.
pub open spec fn lookup(entries: Seq<CacheEntry>, method: Seq<char>, locator: Seq<char>) -> Option<
    IconData,
> {
    if exists|j: int|
        0 <= j < entries.len() && (#[trigger] entries[j]).method@ == method && entries[j].locator@
            == locator {
        let j = choose|j: int|
            0 <= j < entries.len() && (#[trigger] entries[j]).method@ == method
                && entries[j].locator@ == locator;
        Some(entries[j].icon)
    } else {
        None
    }
}

impl IconCache {
    /// The cached entries.
    pub closed spec fn entries(&self) -> Seq<CacheEntry> {
        self.entries@
    }

    /// No two entries share a key, and the cache exceeds its capacity by at
    /// most the one entry inserted last.
    pub open spec fn wf(&self) -> bool {
        &&& self.entries().len() <= CACHE_CAPACITY + 1
        &&& forall|j1: int, j2: int|
            0 <= j1 < self.entries().len() && 0 <= j2 < self.entries().len() && j1 != j2 ==> !(
            (#[trigger] self.entries()[j1]).method@ == (#[trigger] self.entries()[j2]).method@
                && self.entries()[j1].locator@ == self.entries()[j2].locator@)
    }

    /// The result cached for a method and a locator, if any.
    pub open spec fn cached(&self, method: Seq<char>, locator: Seq<char>) -> Option<IconData> {
        lookup(self.entries(), method, locator)
    }

    /// An empty cache.
    pub fn new() -> (r: IconCache)
        ensures
            r.wf(),
            r.entries().len() == 0,
    {
        IconCache { entries: Vec::new() }
    }

    /// The number of cached entries.
    pub fn len(&self) -> (r: usize)
        ensures
            r == self.entries().len(),
    {
        self.entries.len()
    }

    fn find(&self, method: &String, locator: &String) -> (r: Option<usize>)
        requires
            self.wf(),
        ensures
            r matches Some(j) ==> j < self.entries().len() && self.entries()[j as int].method@
                == method@ && self.entries()[j as int].locator@ == locator@,
            r is None ==> forall|j: int|
                0 <= j < self.entries().len() ==> !((#[trigger] self.entries()[j]).method@
                    == method@ && self.entries()[j].locator@ == locator@),
    {
        let mut j: usize = 0;
        while j < self.entries.len()
            invariant
                j <= self.entries@.len(),
                forall|k: int|
                    0 <= k < j ==> !((#[trigger] self.entries@[k]).method@ == method@
                        && self.entries@[k].locator@ == locator@),
            decreases self.entries@.len() - j,
        {
            if self.entries[j].method == *method && self.entries[j].locator == *locator {
                return Some(j);
            }
            j = j + 1;
        }
        None
    }

    /// The result cached for a method and a locator, if any.
    pub fn get(&self, method: &String, locator: &String) -> (r: Option<IconData>)
        requires
            self.wf(),
        ensures
            r == self.cached(method@, locator@),
    {
        match self.find(method, locator) {
            Some(j) => {
                let d = copy_icon(&self.entries[j].icon);
                proof {
                    let e = self.entries();
                    let jj = choose|jj: int|
                        0 <= jj < e.len() && (#[trigger] e[jj]).method@ == method@ && e[jj].locator@
                            == locator@;
                    assert(jj == j);
                }
                Some(d)
            },
            None => None,
        }
    }

    /// Caches a result. A cache that holds more than its capacity is cleared
    /// first; an entry with the same key is replaced.
    pub fn insert(&mut self, method: String, locator: String, icon: IconData)
        requires
            old(self).wf(),
        ensures
            final(self).wf(),
            final(self).cached(method@, locator@) == Some(icon),
            old(self).entries().len() > CACHE_CAPACITY ==> final(self).entries().len() == 1,
            old(self).entries().len() <= CACHE_CAPACITY ==> forall|m: Seq<char>, l: Seq<char>|
                !(m == method@ && l == locator@) ==> #[trigger] final(self).cached(m, l) == old(
                    self,
                ).cached(m, l),
    {
        if self.entries.len() > CACHE_CAPACITY {
            self.entries = Vec::new();
        }
        let ghost before = self.entries@;
        let ghost key_m = method@;
        let ghost key_l = locator@;
        let ghost entry_icon = icon;
        match self.find(&method, &locator) {
            Some(j) => {
                let e = CacheEntry { method, locator, icon };
                self.entries.set(j, e);
                proof {
                    let after = self.entries@;
                    assert forall|j1: int, j2: int|
                        0 <= j1 < after.len() && 0 <= j2 < after.len() && j1 != j2 implies !((
                        #[trigger] after[j1]).method@ == (#[trigger] after[j2]).method@
                            && after[j1].locator@ == after[j2].locator@) by {
                        if j1 != j && j2 != j {
                            assert(after[j1] == before[j1] && after[j2] == before[j2]);
                        } else if j1 == j {
                            assert(after[j2] == before[j2]);
                        } else {
                            assert(after[j1] == before[j1]);
                        }
                    }
                    assert(after[j as int].method@ == key_m && after[j as int].locator@ == key_l);
                    let jj = choose|jj: int|
                        0 <= jj < after.len() && (#[trigger] after[jj]).method@ == key_m
                            && after[jj].locator@ == key_l;
                    assert(jj == j);
                    assert forall|m: Seq<char>, l: Seq<char>|
                        !(m == key_m && l == key_l) implies #[trigger] lookup(after, m, l) == lookup(
                        before,
                        m,
                        l,
                    ) by {
                        assert forall|q: int| 0 <= q < after.len() implies ((
                        #[trigger] after[q]).method@ == m && after[q].locator@ == l) == (
                        before[q].method@ == m && before[q].locator@ == l) by {
                            if q != j {
                                assert(after[q] == before[q]);
                            }
                        }
                        if exists|q: int|
                            0 <= q < after.len() && (#[trigger] after[q]).method@ == m
                                && after[q].locator@ == l {
                            let a = choose|q: int|
                                0 <= q < after.len() && (#[trigger] after[q]).method@ == m
                                    && after[q].locator@ == l;
                            let b = choose|q: int|
                                0 <= q < before.len() && (#[trigger] before[q]).method@ == m
                                    && before[q].locator@ == l;
                            assert(before[a].method@ == m && before[a].locator@ == l);
                            assert(a == b);
                            assert(a != j);
                            assert(after[a] == before[a]);
                        } else {
                            if exists|q: int|
                                0 <= q < before.len() && (#[trigger] before[q]).method@ == m
                                    && before[q].locator@ == l {
                                let b = choose|q: int|
                                    0 <= q < before.len() && (#[trigger] before[q]).method@ == m
                                        && before[q].locator@ == l;
                                assert(after[b].method@ == m && after[b].locator@ == l);
                            }
                        }
                    }
                }
            },
            None => {
                let e = CacheEntry { method, locator, icon };
                self.entries.push(e);
                proof {
                    let after = self.entries@;
                    let n = before.len() as int;
                    assert forall|j1: int, j2: int|
                        0 <= j1 < after.len() && 0 <= j2 < after.len() && j1 != j2 implies !((
                        #[trigger] after[j1]).method@ == (#[trigger] after[j2]).method@
                            && after[j1].locator@ == after[j2].locator@) by {
                        if j1 < n && j2 < n {
                            assert(after[j1] == before[j1] && after[j2] == before[j2]);
                        } else if j1 < n {
                            assert(after[j1] == before[j1]);
                        } else {
                            assert(after[j2] == before[j2]);
                        }
                    }
                    assert(after[n].method@ == key_m && after[n].locator@ == key_l);
                    let jj = choose|jj: int|
                        0 <= jj < after.len() && (#[trigger] after[jj]).method@ == key_m
                            && after[jj].locator@ == key_l;
                    assert(jj == n);
                    assert forall|m: Seq<char>, l: Seq<char>|
                        !(m == key_m && l == key_l) implies #[trigger] lookup(after, m, l) == lookup(
                        before,
                        m,
                        l,
                    ) by {
                        if exists|q: int|
                            0 <= q < after.len() && (#[trigger] after[q]).method@ == m
                                && after[q].locator@ == l {
                            let a = choose|q: int|
                                0 <= q < after.len() && (#[trigger] after[q]).method@ == m
                                    && after[q].locator@ == l;
                            assert(a != n);
                            assert(after[a] == before[a]);
                            let b = choose|q: int|
                                0 <= q < before.len() && (#[trigger] before[q]).method@ == m
                                    && before[q].locator@ == l;
                            assert(after[b] == before[b]);
                            assert(a == b);
                        } else {
                            if exists|q: int|
                                0 <= q < before.len() && (#[trigger] before[q]).method@ == m
                                    && before[q].locator@ == l {
                                let b = choose|q: int|
                                    0 <= q < before.len() && (#[trigger] before[q]).method@ == m
                                        && before[q].locator@ == l;
                                assert(after[b] == before[b]);
                            }
                        }
                    }
                }
            },
        }
    }
}

} // verus!
