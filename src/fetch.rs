//! One page of the target list, resolved name by name: a fresh cache row is
//! used as it is; any other name goes to the resolver, and what it finds is
//! written to the cache before it joins the page.
//!
//! Rate limiting belongs to the caller: it pauses after each name that went to
//! the resolver, and never after a cache hit.

use vstd::prelude::*;
use crate::artist::{Artist, ArtistView, artist_views, placeholder_artists, placeholder_views};
use crate::cache::{ArtistCache, CachedRecord, fresh_lookup};
use crate::planner::texts;

verus! {

/// The names a page covers: at most `limit` names from position `offset`.
pub open spec fn page_of(all: Seq<Seq<char>>, offset: int, limit: int) -> Seq<Seq<char>> {
    if offset >= all.len() {
        Seq::empty()
    } else if offset + limit >= all.len() {
        all.subrange(offset, all.len() as int)
    } else {
        all.subrange(offset, offset + limit)
    }
}

/// A finished page.
#[derive(Debug)]
pub struct PageResult {
    pub artists: Vec<Artist>,
    /// Names remain after the ones this page covered.
    pub has_more: bool,
    /// Number of names in the whole list.
    pub total: usize,
}

/// The state of one page while its names are resolved.
pub struct PageFetch {
    pub names: Vec<String>,
    pub next: usize,
    pub found: Vec<Artist>,
    pub offset: usize,
    pub total: usize,
    pub force_refresh: bool,
}

impl PageFetch {
    /// Starts the page of at most `limit` names from `offset` in `all`.
    pub fn new(all: &Vec<String>, offset: usize, limit: usize, force_refresh: bool) -> (r: PageFetch)
        ensures
            texts(r.names@) == page_of(texts(all@), offset as int, limit as int),
            r.next == 0,
            r.found@.len() == 0,
            r.offset == offset,
            r.total == all@.len(),
            r.force_refresh == force_refresh,
    {
        let total = all.len();
        let start: usize = if offset >= total {
            total
        } else {
            offset
        };
        let end: usize = if offset >= total {
            total
        } else if limit >= total - offset {
            total
        } else {
            offset + limit
        };
        let mut names: Vec<String> = Vec::new();
        let mut i: usize = start;
        assert(texts(names@) =~= texts(all@).subrange(start as int, start as int));
        while i < end
            invariant
                start <= i <= end <= total,
                total == all@.len(),
                texts(names@) == texts(all@).subrange(start as int, i as int),
            decreases end - i,
        {
            let ghost before = names@;
            names.push(all[i].clone());
            assert(names@ == before.push(all@[i as int]));
            assert(texts(names@) =~= texts(before).push(all@[i as int]@));
            assert(texts(all@).subrange(start as int, i + 1) =~= texts(all@).subrange(
                start as int,
                i as int,
            ).push(texts(all@)[i as int]));
            assert(texts(names@) =~= texts(all@).subrange(start as int, i + 1));
            i = i + 1;
        }
        assert(texts(names@) =~= page_of(texts(all@), offset as int, limit as int));
        PageFetch { names, next: 0, found: Vec::new(), offset, total, force_refresh }
    }

    /// The name to resolve next, if any is left.
    pub fn pending(&self) -> (r: Option<String>)
        ensures
            match r {
                Some(n) => self.next < self.names@.len() && n@ == self.names@[self.next as int]@,
                None => self.next >= self.names@.len(),
            },
    {
        if self.next < self.names.len() {
            Some(self.names[self.next].clone())
        } else {
            None
        }
    }

    /// Uses the cache for the pending name unless the page refreshes every
    /// name; true when a fresh row was taken and the name is done.
    pub fn try_cache(&mut self, cache: &ArtistCache, now: u64, window: u64) -> (hit: bool)
        requires
            old(self).next < old(self).names@.len(),
        ensures
            ({
                let key = old(self).names@[old(self).next as int]@;
                &&& hit == (!old(self).force_refresh && fresh_lookup(cache@, key, now, window) is Some)
                &&& hit ==> final(self).next == old(self).next + 1 && artist_views(final(self).found@)
                    == artist_views(old(self).found@).push(fresh_lookup(cache@, key, now, window)->0)
                &&& !hit ==> *final(self) == *old(self)
            }),
            final(self).names == old(self).names,
            final(self).offset == old(self).offset,
            final(self).total == old(self).total,
            final(self).force_refresh == old(self).force_refresh,
    {
        if self.force_refresh {
            return false;
        }
        match cache.lookup(self.names[self.next].as_str(), now, window) {
            Some(a) => {
                let ghost before = self.found@;
                self.found.push(a);
                assert(artist_views(self.found@) =~= artist_views(before).push(a@));
                let count = self.names.len();
                assert(self.next < count);
                self.next = self.next + 1;
                true
            },
            None => false,
        }
    }

    /// Records what the resolver gave for the pending name: a found artist is
    /// cached under the name, stamped `now`, and joins the page; a name not
    /// found, failed or timed out is skipped.
    pub fn record(&mut self, resolved: Option<Artist>, cache: &mut ArtistCache, now: u64)
        requires
            old(self).next < old(self).names@.len(),
        ensures
            final(self).next == old(self).next + 1,
            match resolved {
                Some(a) => {
                    &&& final(cache)@ == old(cache)@.insert(
                        old(self).names@[old(self).next as int]@,
                        CachedRecord { artist: a@, cached_at: now },
                    )
                    &&& artist_views(final(self).found@) == artist_views(old(self).found@).push(a@)
                },
                None => final(cache)@ == old(cache)@ && final(self).found == old(self).found,
            },
            final(self).names == old(self).names,
            final(self).offset == old(self).offset,
            final(self).total == old(self).total,
            final(self).force_refresh == old(self).force_refresh,
    {
        if let Some(a) = resolved {
            cache.upsert(self.names[self.next].as_str(), a.clone(), now);
            let ghost before = self.found@;
            self.found.push(a);
            assert(artist_views(self.found@) =~= artist_views(before).push(a@));
        }
        let count = self.names.len();
        assert(self.next < count);
        self.next = self.next + 1;
    }

    /// Ends the page. An empty page reports no artists; a page on which no
    /// name was resolved falls back to the placeholder set.
    pub fn finish(self) -> (r: PageResult)
        ensures
            self.names@.len() == 0 ==> r.artists@.len() == 0 && !r.has_more && r.total == self.total,
            self.names@.len() > 0 && self.found@.len() == 0 ==> artist_views(r.artists@)
                == placeholder_views() && !r.has_more && r.total == 2,
            self.names@.len() > 0 && self.found@.len() > 0 ==> r.artists@ == self.found@
                && r.has_more == (self.offset + self.names@.len() < self.total) && r.total
                == self.total,
    {
        if self.names.len() == 0 {
            PageResult { artists: Vec::new(), has_more: false, total: self.total }
        } else if self.found.len() == 0 {
            let artists = placeholder_artists();
            let total = artists.len();
            assert(artist_views(artists@).len() == artists@.len());
            PageResult { artists, has_more: false, total }
        } else {
            let covered = self.names.len();
            let has_more = covered < self.total && self.offset < self.total - covered;
            PageResult { artists: self.found, has_more, total: self.total }
        }
    }
}

} // verus!
