//! The parse cache: sources and trees kept per canonical path, valid while
//! the file's modification time and size are unchanged; a tree is served
//! only for the language it was parsed as. Hit and miss counters.

use vstd::prelude::*;
use crate::call_graph::{path_eq, same_path};
use crate::text::{first_at, lemma_first_at, lemma_first_at_extend};
use crate::syntax::Language;

verus! {

/// One cached file, with the language its tree was parsed as and whether
/// that tree was parsed from the source held (a source read later, for a
/// changed file, leaves a tree that no longer matches).
pub struct CacheEntry<T> {
    pub key: String,
    pub language: Language,
    pub mtime: u64,
    pub size: u64,
    pub source: String,
    pub tree: T,
    pub parsed: bool,
}

/// The cache: its entries (one per path) and its counters.
pub struct ParseCache<T> {
    pub entries: Vec<CacheEntry<T>>,
    pub hits: u64,
    pub misses: u64,
}

/// Index of the entry for `key`.
pub open spec fn entry_index<T>(entries: Seq<CacheEntry<T>>, key: Seq<char>) -> Option<int> {
    first_at(entries.len(), |k: int| path_eq(entries[k].key@, key))
}

/// The entry for `key` is current for (`mtime`, `size`).
pub open spec fn fresh_entry<T>(entries: Seq<CacheEntry<T>>, key: Seq<char>, mtime: u64, size: u64) -> Option<int> {
    match entry_index(entries, key) {
        Some(k) => if entries[k].mtime == mtime && entries[k].size == size { Some(k) } else { None },
        None => None,
    }
}

/// The entry for `key` holds a tree parsed as `language` from its source and
/// is current for (`mtime`, `size`): the whole cache key matches.
pub open spec fn fresh_tree<T>(entries: Seq<CacheEntry<T>>, key: Seq<char>, language: Language, mtime: u64, size: u64) -> Option<int> {
    match fresh_entry(entries, key, mtime, size) {
        Some(k) => if entries[k].language == language && entries[k].parsed { Some(k) } else { None },
        None => None,
    }
}

impl<T> ParseCache<T> {
    /// An empty cache.
    pub fn new() -> (c: Self)
        ensures
            c.entries@.len() == 0,
            c.hits == 0,
            c.misses == 0,
    {
        ParseCache { entries: Vec::new(), hits: 0, misses: 0 }
    }

    /// Hits and misses so far.
    pub fn stats(&self) -> (r: (u64, u64))
        ensures
            r == (self.hits, self.misses),
    {
        (self.hits, self.misses)
    }

    /// Index of the entry for `key`.
    fn find(&self, key: &str) -> (r: Option<usize>)
        ensures
            match entry_index(self.entries@, key@) {
                Some(k) => r == Some(k as usize) && 0 <= k < self.entries.len(),
                None => r is None,
            },
    {
        proof {
            lemma_first_at(self.entries@.len(), |k: int| path_eq(self.entries@[k].key@, key@));
        }
        let ghost p = |k: int| path_eq(self.entries@[k].key@, key@);
        let mut k: usize = 0;
        while k < self.entries.len()
            invariant
                k <= self.entries.len(),
                p == (|k: int| path_eq(self.entries@[k].key@, key@)),
                first_at(k as nat, p) is None,
            decreases self.entries.len() - k,
        {
            if same_path(self.entries[k].key.as_str(), key) {
                proof {
                    assert(p(k as int));
                    lemma_first_at_extend((k + 1) as nat, self.entries.len() as nat, p);
                }
                return Some(k);
            }
            k += 1;
        }
        None
    }

    /// The cached tree and source of `key` when it was parsed as `language`
    /// and is still current for (`mtime`, `size`); a hit is counted.
    pub fn lookup_tree(&mut self, key: &str, language: Language, mtime: u64, size: u64) -> (r: Option<(&T, &String)>)
        requires
            old(self).hits < u64::MAX,
        ensures
            match fresh_tree(old(self).entries@, key@, language, mtime, size) {
                Some(k) => r matches Some(x) && *x.0 == old(self).entries@[k].tree && *x.1 == old(self).entries@[k].source
                    && final(self).hits == old(self).hits + 1,
                None => r is None && final(self).hits == old(self).hits,
            },
            final(self).entries@ == old(self).entries@,
            final(self).misses == old(self).misses,
    {
        match self.find(key) {
            Some(k) => {
                proof {
                    lemma_first_at(self.entries@.len(), |k: int| path_eq(self.entries@[k].key@, key@));
                }
                if self.entries[k].mtime == mtime && self.entries[k].size == size && self.entries[k].language == language
                    && self.entries[k].parsed {
                    self.hits = self.hits + 1;
                    let e = &self.entries[k];
                    Some((&e.tree, &e.source))
                } else {
                    None
                }
            },
            None => None,
        }
    }

    /// The cached source of `key` when still current (no counter changes).
    pub fn lookup_source(&self, key: &str, mtime: u64, size: u64) -> (r: Option<&String>)
        ensures
            match fresh_entry(self.entries@, key@, mtime, size) {
                Some(k) => r == Some(&self.entries@[k].source),
                None => r is None,
            },
    {
        let found = self.find(key);
        proof {
            match entry_index(self.entries@, key@) {
                Some(k) => {
                    assert(found == Some(k as usize));
                    assert(0 <= k < self.entries@.len());
                },
                None => {
                    assert(found is None);
                },
            }
        }
        match found {
            Some(k) => {
                if self.entries[k].mtime == mtime && self.entries[k].size == size {
                    Some(&self.entries[k].source)
                } else {
                    None
                }
            },
            None => None,
        }
    }

    /// Records a file freshly parsed as `language`: a miss is counted, and
    /// the entry for `key` is replaced (keeping its key) or added.
    pub fn store_tree(&mut self, key: String, language: Language, mtime: u64, size: u64, source: String, tree: T)
        requires
            old(self).misses < u64::MAX,
        ensures
            final(self).misses == old(self).misses + 1,
            final(self).hits == old(self).hits,
            final(self).entries@ == stored(old(self).entries@, key, language, mtime, size, source, tree),
    {
        self.misses = self.misses + 1;
        match self.find(key.as_str()) {
            Some(k) => {
                proof {
                    lemma_first_at(self.entries@.len(), |k: int| path_eq(self.entries@[k].key@, key@));
                }
                let ghost before = self.entries@;
                let prev = self.entries.remove(k);
                self.entries.insert(k, CacheEntry { key: prev.key, language, mtime, size, source, tree, parsed: true });
                proof {
                    assert(self.entries@ =~= before.update(k as int, CacheEntry {
                        key: before[k as int].key, language, mtime, size, source, tree, parsed: true,
                    }));
                }
            },
            None => {
                self.entries.push(CacheEntry { key, language, mtime, size, source, tree, parsed: true });
            },
        }
    }

    /// Records a source read outside a parse: a miss is counted, and an
    /// existing entry for `key` takes the new time, size and source; its
    /// tree, parsed from the old source, is no longer served.
    pub fn record_source(&mut self, key: &str, mtime: u64, size: u64, source: String)
        requires
            old(self).misses < u64::MAX,
        ensures
            final(self).misses == old(self).misses + 1,
            final(self).hits == old(self).hits,
            match entry_index(old(self).entries@, key@) {
                Some(k) => final(self).entries@.len() == old(self).entries@.len()
                    && (forall|j: int| 0 <= j < old(self).entries@.len() && j != k ==> final(self).entries@[j] == old(self).entries@[j])
                    && final(self).entries@[k].key == old(self).entries@[k].key
                    && final(self).entries@[k].language == old(self).entries@[k].language
                    && final(self).entries@[k].tree == old(self).entries@[k].tree
                    && final(self).entries@[k].mtime == mtime && final(self).entries@[k].size == size
                    && final(self).entries@[k].source == source
                    && !final(self).entries@[k].parsed,
                None => final(self).entries@ == old(self).entries@,
            },
    {
        self.misses = self.misses + 1;
        match self.find(key) {
            Some(k) => {
                proof {
                    lemma_first_at(self.entries@.len(), |k: int| path_eq(self.entries@[k].key@, key@));
                }
                let mut e = self.entries.remove(k);
                e.mtime = mtime;
                e.size = size;
                e.source = source;
                e.parsed = false;
                self.entries.insert(k, e);
            },
            None => {},
        }
    }
}

/// The entries after storing a parse of `key` as `language`.
pub open spec fn stored<T>(entries: Seq<CacheEntry<T>>, key: String, language: Language, mtime: u64, size: u64, source: String, tree: T) -> Seq<CacheEntry<T>> {
    match entry_index(entries, key@) {
        Some(k) => entries.update(k, CacheEntry { key: entries[k].key, language, mtime, size, source, tree, parsed: true }),
        None => entries.push(CacheEntry { key, language, mtime, size, source, tree, parsed: true }),
    }
}

/// A parse stored for a path is found again, with its source and tree, by
/// a lookup of that path as the same language with the same modification
/// time and size; a lookup with another time or size, or as another
/// language, misses. (`key` names a path equal to itself, as every path
/// is.)
pub proof fn law_hit_after_store<T>(entries: Seq<CacheEntry<T>>, key: String, language: Language, mtime: u64, size: u64, source: String, tree: T, other_mtime: u64, other_language: Language)
    requires
        path_eq(key@, key@),
    ensures
        fresh_tree(stored(entries, key, language, mtime, size, source, tree), key@, language, mtime, size) matches Some(k)
            && stored(entries, key, language, mtime, size, source, tree)[k].tree == tree
            && stored(entries, key, language, mtime, size, source, tree)[k].source == source,
        other_mtime != mtime ==> fresh_tree(stored(entries, key, language, mtime, size, source, tree), key@, language, other_mtime, size) is None,
        other_language != language ==> fresh_tree(stored(entries, key, language, mtime, size, source, tree), key@, other_language, mtime, size) is None,
{
    let after = stored(entries, key, language, mtime, size, source, tree);
    let p = |k: int| path_eq(entries[k].key@, key@);
    let q = |k: int| path_eq(after[k].key@, key@);
    lemma_first_at(entries.len(), p);
    match entry_index(entries, key@) {
        Some(k) => {
            assert forall|j: int| 0 <= j < entries.len() implies #[trigger] q(j) == p(j) by {
                if j != k {
                    assert(after[j] == entries[j]);
                }
            }
            lemma_first_at_same(entries.len(), p, q);
        },
        None => {
            assert forall|j: int| 0 <= j < entries.len() implies #[trigger] q(j) == p(j) by {
                assert(after[j] == entries[j]);
            }
            lemma_first_at_same(entries.len(), p, q);
            assert(q(entries.len() as int));
            assert(after.len() == entries.len() + 1);
            assert(first_at(after.len(), q) == Some(entries.len() as int));
        },
    }
}

/// One request for a parsed file, as a cached parse makes it: a lookup that
/// hits, or else a fresh parse stored. Gives the entries and the counters
/// (hits, misses) afterwards.
pub open spec fn tree_request<T>(entries: Seq<CacheEntry<T>>, hits: nat, misses: nat, key: String, language: Language,
    mtime: u64, size: u64, source: String, tree: T) -> (Seq<CacheEntry<T>>, nat, nat) {
    if fresh_tree(entries, key@, language, mtime, size) is Some {
        (entries, hits + 1, misses)
    } else {
        (stored(entries, key, language, mtime, size, source, tree), hits, misses + 1)
    }
}

/// The counters never fall, and each request for a parsed file adds
/// exactly one to hits plus misses; a request right after a parse of the
/// same file as the same language, unchanged, is a hit.
pub proof fn law_cache_counters<T>(entries: Seq<CacheEntry<T>>, hits: nat, misses: nat, key: String, language: Language,
    mtime: u64, size: u64, source: String, tree: T)
    requires
        path_eq(key@, key@),
    ensures
        ({
            let (e1, h1, m1) = tree_request(entries, hits, misses, key, language, mtime, size, source, tree);
            let (e2, h2, m2) = tree_request(e1, h1, m1, key, language, mtime, size, source, tree);
            &&& h1 >= hits && m1 >= misses && h1 + m1 == hits + misses + 1
            &&& h2 == h1 + 1 && m2 == m1 && e2 == e1
        }),
{
    let (e1, h1, m1) = tree_request(entries, hits, misses, key, language, mtime, size, source, tree);
    match fresh_tree(entries, key@, language, mtime, size) {
        Some(k) => {},
        None => {
            law_hit_after_store(entries, key, language, mtime, size, source, tree, mtime, language);
        },
    }
}

/// The entries after a source read outside a parse is recorded.
pub open spec fn recorded<T>(entries: Seq<CacheEntry<T>>, key: Seq<char>, mtime: u64, size: u64, source: String) -> Seq<CacheEntry<T>> {
    match entry_index(entries, key) {
        Some(k) => entries.update(k, CacheEntry { mtime, size, source, parsed: false, ..entries[k] }),
        None => entries,
    }
}

/// One request for a file's source: the cached source when current, else a
/// fresh read recorded (a miss).
pub open spec fn source_request<T>(entries: Seq<CacheEntry<T>>, hits: nat, misses: nat, key: String, mtime: u64,
    size: u64, source: String) -> (Seq<CacheEntry<T>>, nat, nat) {
    if fresh_entry(entries, key@, mtime, size) is Some {
        (entries, hits, misses)
    } else {
        (recorded(entries, key@, mtime, size, source), hits, misses + 1)
    }
}

/// A request the cache answers: for a parsed file, or for a file's source.
pub enum CacheCall<T> {
    Tree { key: String, language: Language, mtime: u64, size: u64, source: String, tree: T },
    Source { key: String, mtime: u64, size: u64, source: String },
}

/// The cache after the calls, first to last: entries, hits and misses.
pub open spec fn run_calls<T>(entries: Seq<CacheEntry<T>>, hits: nat, misses: nat, calls: Seq<CacheCall<T>>) -> (Seq<CacheEntry<T>>, nat, nat)
    decreases calls.len(),
{
    if calls.len() == 0 {
        (entries, hits, misses)
    } else {
        let (e, h, m) = run_calls(entries, hits, misses, calls.drop_last());
        match calls.last() {
            CacheCall::Tree { key, language, mtime, size, source, tree } => tree_request(e, h, m, key, language, mtime, size, source, tree),
            CacheCall::Source { key, mtime, size, source } => source_request(e, h, m, key, mtime, size, source),
        }
    }
}

/// The requests for parsed files among the calls.
pub open spec fn tree_calls<T>(calls: Seq<CacheCall<T>>) -> nat
    decreases calls.len(),
{
    if calls.len() == 0 {
        0
    } else {
        tree_calls(calls.drop_last()) + if calls.last() is Tree { 1nat } else { 0nat }
    }
}

/// Over any sequence of calls the counters never fall; every request for a
/// parsed file adds exactly one to hits plus misses, and a source request
/// at most one.
pub proof fn law_cache_calls<T>(entries: Seq<CacheEntry<T>>, hits: nat, misses: nat, calls: Seq<CacheCall<T>>)
    ensures
        ({
            let (e, h, m) = run_calls(entries, hits, misses, calls);
            &&& h >= hits && m >= misses
            &&& h + m >= hits + misses + tree_calls(calls)
            &&& h + m <= hits + misses + calls.len()
        }),
    decreases calls.len(),
{
    if calls.len() > 0 {
        law_cache_calls(entries, hits, misses, calls.drop_last());
    }
}

/// Two predicates that agree below `n` pick the same first index below `n`.
pub proof fn lemma_first_at_same(n: nat, p: spec_fn(int) -> bool, q: spec_fn(int) -> bool)
    requires
        forall|j: int| 0 <= j < n ==> #[trigger] q(j) == p(j),
    ensures
        first_at(n, q) == first_at(n, p),
    decreases n,
{
    if n > 0 {
        lemma_first_at_same((n - 1) as nat, p, q);
        assert(q(n - 1) == p(n - 1));
    }
}

} // verus!
