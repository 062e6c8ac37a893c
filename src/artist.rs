//! The resolved artist record and the plain records the remote endpoints hand back.

use vstd::prelude::*;

verus! {

/// A channel that a target name resolved to.
#[derive(Debug, PartialEq, Eq)]
pub struct Artist {
    pub name: String,
    pub channel_id: String,
    pub subscriber_count: Option<u64>,
    pub description: Option<String>,
}

/// The mathematical content of an [`Artist`].
pub struct ArtistView {
    pub name: Seq<char>,
    pub channel_id: Seq<char>,
    pub subscriber_count: Option<u64>,
    pub description: Option<Seq<char>>,
}

pub open spec fn opt_text(o: Option<String>) -> Option<Seq<char>> {
    match o {
        Some(s) => Some(s@),
        None => None,
    }
}

impl View for Artist {
    type V = ArtistView;

    open spec fn view(&self) -> ArtistView {
        ArtistView {
            name: self.name@,
            channel_id: self.channel_id@,
            subscriber_count: self.subscriber_count,
            description: opt_text(self.description),
        }
    }
}

impl Clone for Artist {
    fn clone(&self) -> (r: Self)
        ensures
            r == *self,
    {
        let description = match &self.description {
            Some(d) => Some(d.clone()),
            None => None,
        };
        Artist {
            name: self.name.clone(),
            channel_id: self.channel_id.clone(),
            subscriber_count: self.subscriber_count,
            description,
        }
    }
}

/// The views of a sequence of artists.
pub open spec fn artist_views(v: Seq<Artist>) -> Seq<ArtistView> {
    v.map_values(|a: Artist| a@)
}

/// A channel's detail record, as the detail endpoint reports it.
#[derive(Debug)]
pub struct ChannelDetail {
    pub title: Option<String>,
    pub description: Option<String>,
    pub subscriber_count: Option<u64>,
}

pub open spec fn is_digit(c: char) -> bool {
    '0' <= c <= '9'
}

/// The number that a string of decimal digits writes.
pub open spec fn digits_value(s: Seq<char>) -> int
    decreases s.len(),
{
    if s.len() == 0 {
        0
    } else {
        digits_value(s.drop_last()) * 10 + (s.last() as int - '0' as int)
    }
}

/// The digits of a count: the text without one leading `+`.
pub open spec fn unsigned_digits(s: Seq<char>) -> Seq<char> {
    if s.len() > 0 && s[0] == '+' {
        s.drop_first()
    } else {
        s
    }
}

/// The value of at least one decimal digit, if it fits in a `u64`.
pub open spec fn decimal_value(d: Seq<char>) -> Option<u64> {
    if d.len() > 0 && (forall|i: int| 0 <= i < d.len() ==> is_digit(#[trigger] d[i]))
        && digits_value(d) <= u64::MAX {
        Some(digits_value(d) as u64)
    } else {
        None
    }
}

/// A count written in decimal: an optional `+`, then at least one digit,
/// with a value that fits in a `u64`.
pub open spec fn count_value(s: Seq<char>) -> Option<u64> {
    decimal_value(unsigned_digits(s))
}

proof fn lemma_digits_grow(d: Seq<char>, i: int)
    requires
        0 <= i <= d.len(),
        forall|k: int| 0 <= k < d.len() ==> is_digit(#[trigger] d[k]),
    ensures
        0 <= digits_value(d.take(i)) <= digits_value(d),
    decreases d.len() - i,
{
    if i == d.len() {
        assert(d.take(i) =~= d);
        lemma_digits_nonneg(d);
    } else {
        lemma_digits_grow(d, i + 1);
        let t = d.take(i + 1);
        assert(t.drop_last() =~= d.take(i));
        assert(t.last() == d[i]);
        lemma_digits_nonneg(d.take(i));
    }
}

proof fn lemma_digits_nonneg(d: Seq<char>)
    requires
        forall|k: int| 0 <= k < d.len() ==> is_digit(#[trigger] d[k]),
    ensures
        digits_value(d) >= 0,
    decreases d.len(),
{
    if d.len() > 0 {
        let p = d.drop_last();
        assert forall|k: int| 0 <= k < p.len() implies is_digit(#[trigger] p[k]) by {
            assert(p[k] == d[k]);
        }
        lemma_digits_nonneg(p);
        assert(is_digit(d[d.len() - 1]));
    }
}

/// Reads a subscriber count as the detail endpoint writes it.
pub fn parse_count(text: &str) -> (r: Option<u64>)
    ensures
        r == count_value(text@),
{
    let cs = crate::text::chars_of(text);
    let ghost s = text@;
    let start: usize = if cs.len() > 0 && cs[0] == '+' {
        1
    } else {
        0
    };
    let ghost d = s.subrange(start as int, s.len() as int);
    proof {
        if start == 1 {
            assert(d =~= s.drop_first());
        } else {
            assert(d =~= s);
        }
    }
    if start >= cs.len() {
        return None;
    }
    let mut value: u64 = 0;
    let mut i: usize = start;
    while i < cs.len()
        invariant
            cs@ == s,
            s == text@,
            start <= i <= cs@.len(),
            d == s.subrange(start as int, s.len() as int),
            d == unsigned_digits(s),
            forall|k: int| 0 <= k < i - start ==> is_digit(#[trigger] d[k]),
            value == digits_value(d.take(i - start)),
        decreases cs@.len() - i,
    {
        let c = cs[i];
        if !('0' <= c && c <= '9') {
            assert(d[i - start] == c);
            assert(!is_digit(d[i - start]));
            return None;
        }
        let digit = (c as u32 - '0' as u32) as u64;
        let ghost t = d.take(i - start + 1);
        proof {
            assert(d[i - start] == c);
            assert(t.drop_last() =~= d.take(i - start));
            assert(t.last() == c);
        }
        if value > (u64::MAX - digit) / 10 {
            proof {
                assert(value * 10 + digit > u64::MAX) by (nonlinear_arith)
                    requires
                        value > (u64::MAX - digit) / 10,
                        digit <= 9,
                ;
                assert(digits_value(t) > u64::MAX);
                if forall|k: int| 0 <= k < d.len() ==> is_digit(#[trigger] d[k]) {
                    lemma_digits_grow(d, i - start + 1);
                }
            }
            return None;
        }
        value = value * 10 + digit;
        i = i + 1;
    }
    assert(d.take(d.len() as int) =~= d);
    Some(value)
}

/// The artist a detail record describes; a missing title reads `Unknown`.
pub open spec fn detail_artist(channel_id: Seq<char>, d: ChannelDetail) -> ArtistView {
    ArtistView {
        name: match d.title {
            Some(t) => t@,
            None => "Unknown"@,
        },
        channel_id,
        subscriber_count: d.subscriber_count,
        description: opt_text(d.description),
    }
}

/// Builds the artist that `detail` describes for the channel `channel_id`.
pub fn artist_from_detail(channel_id: &str, detail: &ChannelDetail) -> (r: Artist)
    ensures
        r@ == detail_artist(channel_id@, *detail),
{
    let name = match &detail.title {
        Some(t) => t.clone(),
        None => String::from_str("Unknown"),
    };
    let description = match &detail.description {
        Some(d) => Some(d.clone()),
        None => None,
    };
    Artist {
        name,
        channel_id: String::from_str(channel_id),
        subscriber_count: detail.subscriber_count,
        description,
    }
}

/// Detail enrichment is best effort: with a detail record the artist is
/// rebuilt from it, without one the search match is kept as it is.
pub fn enrich(basic: Artist, detail: Option<ChannelDetail>) -> (r: Artist)
    ensures
        r@ == match detail {
            Some(d) => detail_artist(basic.channel_id@, d),
            None => basic@,
        },
{
    match detail {
        Some(d) => artist_from_detail(basic.channel_id.as_str(), &d),
        None => basic,
    }
}

/// The fixed set a page falls back to when nothing on it could be resolved.
pub open spec fn placeholder_views() -> Seq<ArtistView> {
    seq![
        ArtistView {
            name: "Let's Get Rusty"@,
            channel_id: "mock_id_1"@,
            subscriber_count: None,
            description: Some("Rust programming tutorials (mock data)"@),
        },
        ArtistView {
            name: "Marques Brownlee"@,
            channel_id: "mock_id_2"@,
            subscriber_count: None,
            description: Some("Technology reviews (mock data)"@),
        },
    ]
}

/// The placeholder artists of the degraded mode.
pub fn placeholder_artists() -> (r: Vec<Artist>)
    ensures
        artist_views(r@) == placeholder_views(),
{
    let mut v: Vec<Artist> = Vec::new();
    v.push(
        Artist {
            name: String::from_str("Let's Get Rusty"),
            channel_id: String::from_str("mock_id_1"),
            subscriber_count: None,
            description: Some(String::from_str("Rust programming tutorials (mock data)")),
        },
    );
    v.push(
        Artist {
            name: String::from_str("Marques Brownlee"),
            channel_id: String::from_str("mock_id_2"),
            subscriber_count: None,
            description: Some(String::from_str("Technology reviews (mock data)")),
        },
    );
    assert(artist_views(v@) =~= placeholder_views());
    v
}

} // verus!
