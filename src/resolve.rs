//! Resolution of a target name: the match policy over search results and the
//! state of one resolution across its search terms.

use vstd::prelude::*;
use crate::artist::{Artist, ArtistView, opt_text};
use crate::planner::texts;
use crate::text::{lower_of, contains_seq, contains_text, same_text, to_lower, has_white_space};
use crate::variants::{variations_of, search_variations};

verus! {

/// Pause between two search terms, in milliseconds.
pub const RETRY_PAUSE_MS: u64 = 200;

/// One result of a channel search.
#[derive(Debug)]
pub struct SearchCandidate {
    pub title: Option<String>,
    pub channel_id: Option<String>,
    pub description: Option<String>,
}

/// Match policy on lower-cased texts: equal, or either contains the other.
pub open spec fn names_match(target: Seq<char>, title: Seq<char>) -> bool {
    title == target || contains_seq(title, target) || contains_seq(target, title)
}

/// `c` has a title and a channel id, and its title matches `target` ignoring case.
pub open spec fn accepts(target: Seq<char>, c: SearchCandidate) -> bool {
    &&& c.title is Some
    &&& c.channel_id is Some
    &&& names_match(lower_of(target), lower_of(c.title->0@))
}

/// The artist a candidate stands for, before its details are fetched.
pub open spec fn candidate_artist(c: SearchCandidate) -> ArtistView {
    ArtistView {
        name: c.title->0@,
        channel_id: c.channel_id->0@,
        subscriber_count: None,
        description: opt_text(c.description),
    }
}

/// The match policy on texts already lower-cased.
pub fn title_matches_folded(target: &str, title: &str) -> (r: bool)
    ensures
        r == names_match(target@, title@),
{
    same_text(title, target) || contains_text(title, target) || contains_text(target, title)
}

/// The match policy: `title` matches `target` ignoring case.
pub fn title_matches(target: &str, title: &str) -> (r: bool)
    ensures
        r == names_match(lower_of(target@), lower_of(title@)),
{
    let t = to_lower(target);
    let c = to_lower(title);
    title_matches_folded(t.as_str(), c.as_str())
}

/// `c` has a title and a channel id, and `title_folded`, the lower-case form of
/// its title, matches `target_folded`.
pub open spec fn accepts_folded(target_folded: Seq<char>, c: SearchCandidate, title_folded: Seq<char>) -> bool {
    &&& c.title is Some
    &&& c.channel_id is Some
    &&& names_match(target_folded, title_folded)
}

/// Position of the first candidate accepted on lower-cased texts, in result
/// order; `titles_folded[j]` is the lower-case form of candidate `j`'s title.
pub fn first_match_folded(
    target_folded: &str,
    candidates: &Vec<SearchCandidate>,
    titles_folded: &Vec<String>,
) -> (r: Option<usize>)
    requires
        titles_folded@.len() == candidates@.len(),
    ensures
        match r {
            Some(i) => i < candidates@.len() && accepts_folded(
                target_folded@,
                candidates@[i as int],
                titles_folded@[i as int]@,
            ) && forall|j: int|
                0 <= j < i ==> !accepts_folded(
                    target_folded@,
                    #[trigger] candidates@[j],
                    titles_folded@[j]@,
                ),
            None => forall|j: int|
                0 <= j < candidates@.len() ==> !accepts_folded(
                    target_folded@,
                    #[trigger] candidates@[j],
                    titles_folded@[j]@,
                ),
        },
{
    for i in 0..candidates.len()
        invariant
            titles_folded@.len() == candidates@.len(),
            forall|j: int|
                0 <= j < i ==> !accepts_folded(
                    target_folded@,
                    #[trigger] candidates@[j],
                    titles_folded@[j]@,
                ),
    {
        let c = &candidates[i];
        if c.title.is_some() && c.channel_id.is_some() && title_matches_folded(
            target_folded,
            titles_folded[i].as_str(),
        ) {
            return Some(i);
        }
    }
    None
}

/// Position of the first candidate that `target` accepts, in result order.
pub fn first_match(target: &str, candidates: &Vec<SearchCandidate>) -> (r: Option<usize>)
    ensures
        match r {
            Some(i) => i < candidates@.len() && accepts(target@, candidates@[i as int]) && forall|
                j: int,
            | 0 <= j < i ==> !accepts(target@, #[trigger] candidates@[j]),
            None => forall|j: int|
                0 <= j < candidates@.len() ==> !accepts(target@, #[trigger] candidates@[j]),
        },
{
    let target_folded = to_lower(target);
    let mut titles_folded: Vec<String> = Vec::new();
    for i in 0..candidates.len()
        invariant
            titles_folded@.len() == i,
            forall|j: int|
                0 <= j < i && (#[trigger] candidates@[j]).title is Some ==> titles_folded@[j]@
                    == lower_of(candidates@[j].title->0@),
    {
        let folded = match &candidates[i].title {
            Some(t) => to_lower(t.as_str()),
            None => String::new(),
        };
        titles_folded.push(folded);
    }
    let r = first_match_folded(target_folded.as_str(), candidates, &titles_folded);
    proof {
        assert forall|j: int| 0 <= j < candidates@.len() implies accepts(
            target@,
            #[trigger] candidates@[j],
        ) == accepts_folded(target_folded@, candidates@[j], titles_folded@[j]@) by {
            if candidates@[j].title is Some {
                assert(titles_folded@[j]@ == lower_of(candidates@[j].title->0@));
            }
        }
    }
    r
}

/// The artist a candidate with a title and a channel id stands for.
pub fn artist_from_candidate(c: &SearchCandidate) -> (r: Artist)
    requires
        c.title is Some,
        c.channel_id is Some,
    ensures
        r@ == candidate_artist(*c),
{
    let description = match &c.description {
        Some(d) => Some(d.clone()),
        None => None,
    };
    match (&c.title, &c.channel_id) {
        (Some(title), Some(id)) => Artist {
            name: title.clone(),
            channel_id: id.clone(),
            subscriber_count: None,
            description,
        },
        _ => {
            proof {
                assert(false);
            }
            Artist { name: String::new(), channel_id: String::new(), subscriber_count: None, description }
        },
    }
}

/// What follows the results of one search term.
#[derive(Debug)]
pub enum SearchStep {
    /// A candidate matched; the resolution is over.
    Found(Artist),
    /// Nothing matched; wait this long, then search the next term.
    TryNext { delay_ms: u64 },
    /// Nothing matched, no term is left, and every search went through.
    NotFound,
    /// Nothing matched, no term is left, and some search failed in transport.
    Failed,
}

/// One resolution of a target name across its search terms.
pub struct ArtistSearch {
    pub target: String,
    pub terms: Vec<String>,
    pub next: usize,
    /// Some search of this resolution failed in transport.
    pub faulted: bool,
}

/// What follows a term that did not resolve the name: the pause before the
/// next term, or the end of the resolution once no term is left.
pub open spec fn after_miss(tried: usize, count: nat, faulted: bool) -> SearchStep {
    if tried + 1 >= count {
        if faulted {
            SearchStep::Failed
        } else {
            SearchStep::NotFound
        }
    } else {
        SearchStep::TryNext {
            delay_ms: if tried > 0 {
                RETRY_PAUSE_MS
            } else {
                0
            },
        }
    }
}

impl ArtistSearch {
    pub fn new(target: &str) -> (r: ArtistSearch)
        ensures
            r.target@ == target@,
            texts(r.terms@) == variations_of(target@),
            r.next == 0,
            !r.faulted,
    {
        ArtistSearch {
            target: String::from_str(target),
            terms: search_variations(target),
            next: 0,
            faulted: false,
        }
    }

    fn miss(&mut self) -> (r: SearchStep)
        requires
            old(self).next < old(self).terms@.len(),
        ensures
            final(self).target == old(self).target,
            final(self).terms == old(self).terms,
            final(self).faulted == old(self).faulted,
            final(self).next == old(self).next + 1,
            r == after_miss(old(self).next, old(self).terms@.len(), old(self).faulted),
    {
        let tried = self.next;
        let count = self.terms.len();
        self.next = tried + 1;
        if self.next >= count {
            if self.faulted {
                SearchStep::Failed
            } else {
                SearchStep::NotFound
            }
        } else if tried > 0 {
            SearchStep::TryNext { delay_ms: RETRY_PAUSE_MS }
        } else {
            SearchStep::TryNext { delay_ms: 0 }
        }
    }

    /// Takes a transport failure of the current term's search: the term counts
    /// as unresolved and the failure is remembered for the end.
    pub fn on_fault(&mut self) -> (r: SearchStep)
        requires
            old(self).next < old(self).terms@.len(),
        ensures
            final(self).target == old(self).target,
            final(self).terms == old(self).terms,
            final(self).faulted,
            final(self).next == old(self).next + 1,
            r == after_miss(old(self).next, old(self).terms@.len(), true),
    {
        self.faulted = true;
        self.miss()
    }

    /// The term to search next, if any is left.
    pub fn next_term(&self) -> (r: Option<String>)
        ensures
            match r {
                Some(t) => self.next < self.terms@.len() && t@ == self.terms@[self.next as int]@,
                None => self.next >= self.terms@.len(),
            },
    {
        if self.next < self.terms.len() {
            Some(self.terms[self.next].clone())
        } else {
            None
        }
    }

    /// Takes the results of the current term. The first accepted candidate ends
    /// the resolution; otherwise the next term is due, after a pause unless the
    /// term just tried was the first.
    pub fn on_results(&mut self, candidates: &Vec<SearchCandidate>) -> (r: SearchStep)
        requires
            old(self).next < old(self).terms@.len(),
        ensures
            final(self).target == old(self).target,
            final(self).terms == old(self).terms,
            (exists|i: int|
                0 <= i < candidates@.len() && accepts(old(self).target@, #[trigger] candidates@[i]))
                ==> (exists|i: int|
                0 <= i < candidates@.len() && accepts(old(self).target@, #[trigger] candidates@[i])
                    && (forall|j: int|
                    0 <= j < i ==> !accepts(old(self).target@, #[trigger] candidates@[j]))
                    && (r matches SearchStep::Found(a) && a@ == candidate_artist(candidates@[i])))
                && final(self).next == old(self).next,
            final(self).faulted == old(self).faulted,
            (forall|i: int|
                0 <= i < candidates@.len() ==> !accepts(old(self).target@, #[trigger] candidates@[i]))
                ==> final(self).next == old(self).next + 1 && r == after_miss(
                old(self).next,
                old(self).terms@.len(),
                old(self).faulted,
            ),
    {
        match first_match(self.target.as_str(), candidates) {
            Some(i) => SearchStep::Found(artist_from_candidate(&candidates[i])),
            None => self.miss(),
        }
    }
}

/// A resolution in which no term's results hold an accepted candidate and no
/// search fails tries every search term of the target (nine for a name with
/// white space, eleven otherwise), moving on after each but the last, and then
/// ends with `NotFound`, not with an error.
pub proof fn lemma_unmatched_resolution_not_found(target: Seq<char>)
    ensures
        ({
            let count = variations_of(target).len();
            &&& count == if has_white_space(target) {
                9nat
            } else {
                11nat
            }
            &&& forall|tried: usize|
                tried + 1 < count ==> #[trigger] after_miss(tried, count, false) is TryNext
            &&& after_miss((count - 1) as usize, count, false) is NotFound
        }),
{
}

} // verus!
