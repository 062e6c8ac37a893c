//! An expiring table of resolved artists, keyed by the exact search text the
//! user supplied. Expiry is logical: a stale row stays in the table and is only
//! kept from being returned by a lookup.

use vstd::prelude::*;
use crate::artist::{Artist, ArtistView};

verus! {

/// What the table holds for one search key.
pub struct CachedRecord {
    pub artist: ArtistView,
    pub cached_at: u64,
}

/// A row of the table.
pub struct CacheEntry {
    pub search_key: String,
    pub artist: Artist,
    pub cached_at: u64,
}

pub open spec fn record_of(e: CacheEntry) -> CachedRecord {
    CachedRecord { artist: e.artist@, cached_at: e.cached_at }
}

/// The map that a sequence of rows stands for; a later row wins over an earlier one.
pub open spec fn entries_map(es: Seq<CacheEntry>) -> Map<Seq<char>, CachedRecord>
    decreases es.len(),
{
    if es.len() == 0 {
        Map::empty()
    } else {
        entries_map(es.drop_last()).insert(es.last().search_key@, record_of(es.last()))
    }
}

pub open spec fn keys_unique(es: Seq<CacheEntry>) -> bool {
    forall|i: int, j: int|
        0 <= i < es.len() && 0 <= j < es.len() && i != j ==> #[trigger] es[i].search_key@
            != #[trigger] es[j].search_key@
}

/// A row written at `cached_at` is still fresh at `now`: it is younger than `window` seconds.
pub open spec fn is_fresh(cached_at: u64, now: u64, window: u64) -> bool {
    now < cached_at + window
}

/// What a lookup of `key` at `now` returns.
pub open spec fn fresh_lookup(
    m: Map<Seq<char>, CachedRecord>,
    key: Seq<char>,
    now: u64,
    window: u64,
) -> Option<ArtistView> {
    if m.contains_key(key) && is_fresh(m[key].cached_at, now, window) {
        Some(m[key].artist)
    } else {
        None
    }
}

pub open spec fn opt_artist(o: Option<Artist>) -> Option<ArtistView> {
    match o {
        Some(a) => Some(a@),
        None => None,
    }
}

proof fn lemma_entries_map_at(es: Seq<CacheEntry>, i: int)
    requires
        keys_unique(es),
        0 <= i < es.len(),
    ensures
        entries_map(es).contains_key(es[i].search_key@),
        entries_map(es)[es[i].search_key@] == record_of(es[i]),
    decreases es.len(),
{
    if i < es.len() - 1 {
        let prefix = es.drop_last();
        assert(prefix[i] == es[i]);
        assert(keys_unique(prefix)) by {
            assert forall|a: int, b: int|
                0 <= a < prefix.len() && 0 <= b < prefix.len() && a != b implies
                #[trigger] prefix[a].search_key@ != #[trigger] prefix[b].search_key@ by {
                assert(prefix[a] == es[a] && prefix[b] == es[b]);
            }
        }
        lemma_entries_map_at(prefix, i);
        assert(es[i].search_key@ != es[es.len() - 1].search_key@);
    }
}

proof fn lemma_entries_map_absent(es: Seq<CacheEntry>, key: Seq<char>)
    requires
        forall|i: int| 0 <= i < es.len() ==> #[trigger] es[i].search_key@ != key,
    ensures
        !entries_map(es).contains_key(key),
    decreases es.len(),
{
    if es.len() > 0 {
        let prefix = es.drop_last();
        assert forall|i: int| 0 <= i < prefix.len() implies #[trigger] prefix[i].search_key@
            != key by {
            assert(prefix[i] == es[i]);
        }
        lemma_entries_map_absent(prefix, key);
        assert(es[es.len() - 1].search_key@ != key);
    }
}

proof fn lemma_entries_map_update(es: Seq<CacheEntry>, i: int, e: CacheEntry)
    requires
        keys_unique(es),
        0 <= i < es.len(),
        e.search_key@ == es[i].search_key@,
    ensures
        entries_map(es.update(i, e)) == entries_map(es).insert(e.search_key@, record_of(e)),
    decreases es.len(),
{
    let us = es.update(i, e);
    if i == es.len() - 1 {
        assert(us.drop_last() == es.drop_last());
        assert(entries_map(us) =~= entries_map(es).insert(e.search_key@, record_of(e)));
    } else {
        let prefix = es.drop_last();
        assert(us.drop_last() == prefix.update(i, e));
        assert(keys_unique(prefix)) by {
            assert forall|a: int, b: int|
                0 <= a < prefix.len() && 0 <= b < prefix.len() && a != b implies
                #[trigger] prefix[a].search_key@ != #[trigger] prefix[b].search_key@ by {
                assert(prefix[a] == es[a] && prefix[b] == es[b]);
            }
        }
        lemma_entries_map_update(prefix, i, e);
        let last = es[es.len() - 1];
        assert(us.last() == last);
        assert(last.search_key@ != e.search_key@);
        assert(entries_map(us) =~= entries_map(es).insert(e.search_key@, record_of(e)));
    }
}

/// The table of cached resolutions.
pub struct ArtistCache {
    entries: Vec<CacheEntry>,
}

impl View for ArtistCache {
    type V = Map<Seq<char>, CachedRecord>;

    closed spec fn view(&self) -> Map<Seq<char>, CachedRecord> {
        entries_map(self.entries@)
    }
}

impl ArtistCache {
    /// At most one row per search key.
    #[verifier::type_invariant]
    spec fn keys_are_unique(&self) -> bool {
        keys_unique(self.entries@)
    }

    pub fn new() -> (r: ArtistCache)
        ensures
            r@ == Map::<Seq<char>, CachedRecord>::empty(),
    {
        ArtistCache { entries: Vec::new() }
    }

    /// Number of distinct search keys held, stale ones included.
    pub fn len(&self) -> (r: usize)
        ensures
            r == self@.len(),
    {
        proof {
            use_type_invariant(self);
            lemma_dom_is_keys(self.entries@);
        }
        self.entries.len()
    }

    fn find(&self, key: &str) -> (r: Option<usize>)
        ensures
            match r {
                Some(i) => i < self.entries@.len() && self.entries@[i as int].search_key@ == key@,
                None => forall|i: int|
                    0 <= i < self.entries@.len() ==> #[trigger] self.entries@[i].search_key@
                        != key@,
            },
    {
        let mut i: usize = 0;
        while i < self.entries.len()
            invariant
                i <= self.entries@.len(),
                forall|j: int| 0 <= j < i ==> #[trigger] self.entries@[j].search_key@ != key@,
            decreases self.entries@.len() - i,
        {
            if crate::text::same_text(self.entries[i].search_key.as_str(), key) {
                return Some(i);
            }
            i = i + 1;
        }
        None
    }

    /// The artist stored under `key`, if its row is younger than `window` seconds at `now`.
    pub fn lookup(&self, key: &str, now: u64, window: u64) -> (r: Option<Artist>)
        ensures
            opt_artist(r) == fresh_lookup(self@, key@, now, window),
    {
        proof {
            use_type_invariant(self);
        }
        match self.find(key) {
            Some(i) => {
                proof {
                    lemma_entries_map_at(self.entries@, i as int);
                }
                let e = &self.entries[i];
                let fresh = now < e.cached_at || now - e.cached_at < window;
                if fresh {
                    Some(e.artist.clone())
                } else {
                    None
                }
            },
            None => {
                proof {
                    lemma_entries_map_absent(self.entries@, key@);
                }
                None
            },
        }
    }

    /// Stores `artist` under `key` as written at `cached_at`, replacing any earlier row.
    pub fn upsert(&mut self, key: &str, artist: Artist, cached_at: u64)
        ensures
            final(self)@ == old(self)@.insert(
                key@,
                CachedRecord { artist: artist@, cached_at },
            ),
    {
        proof {
            use_type_invariant(&*self);
        }
        let entry = CacheEntry { search_key: key.to_owned(), artist, cached_at };
        let found = self.find(key);
        let mut taken = ArtistCache::new();
        core::mem::swap(self, &mut taken);
        let ArtistCache { mut entries } = taken;
        let ghost before = entries@;
        match found {
            Some(i) => {
                proof {
                    lemma_entries_map_update(before, i as int, entry);
                }
                entries.set(i, entry);
                assert(keys_unique(entries@)) by {
                    assert forall|a: int, b: int|
                        0 <= a < entries@.len() && 0 <= b < entries@.len() && a != b implies
                        #[trigger] entries@[a].search_key@ != #[trigger] entries@[b].search_key@ by {
                        assert(before[a].search_key@ == entries@[a].search_key@);
                        assert(before[b].search_key@ == entries@[b].search_key@);
                    }
                }
            },
            None => {
                entries.push(entry);
                assert(entries@.drop_last() == before);
                assert(record_of(entry) == (CachedRecord { artist: artist@, cached_at }));
            },
        }
        *self = ArtistCache { entries };
    }
}

proof fn lemma_dom_is_keys(es: Seq<CacheEntry>)
    requires
        keys_unique(es),
    ensures
        entries_map(es).dom().finite(),
        entries_map(es).len() == es.len(),
    decreases es.len(),
{
    if es.len() > 0 {
        let prefix = es.drop_last();
        assert(keys_unique(prefix)) by {
            assert forall|a: int, b: int|
                0 <= a < prefix.len() && 0 <= b < prefix.len() && a != b implies
                #[trigger] prefix[a].search_key@ != #[trigger] prefix[b].search_key@ by {
                assert(prefix[a] == es[a] && prefix[b] == es[b]);
            }
        }
        lemma_dom_is_keys(prefix);
        assert forall|i: int| 0 <= i < prefix.len() implies #[trigger] prefix[i].search_key@
            != es.last().search_key@ by {
            assert(prefix[i] == es[i]);
        }
        lemma_entries_map_absent(prefix, es.last().search_key@);
    }
}

/// A row written and then looked up while still fresh gives back exactly what was written.
pub proof fn lemma_upsert_then_lookup(
    before: Map<Seq<char>, CachedRecord>,
    key: Seq<char>,
    artist: ArtistView,
    cached_at: u64,
    now: u64,
    window: u64,
)
    requires
        is_fresh(cached_at, now, window),
    ensures
        fresh_lookup(before.insert(key, CachedRecord { artist, cached_at }), key, now, window)
            == Some(artist),
{
}

/// A row older than the window is not returned, although the table still holds it.
pub proof fn lemma_stale_row_hidden(
    m: Map<Seq<char>, CachedRecord>,
    key: Seq<char>,
    now: u64,
    window: u64,
)
    requires
        m.contains_key(key),
        !is_fresh(m[key].cached_at, now, window),
    ensures
        fresh_lookup(m, key, now, window) is None,
        m.contains_key(key),
{
}

} // verus!
