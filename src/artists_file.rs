//! The target list format: one artist name per line, optionally followed by
//! `|` and tags. Lines are trimmed; blank lines and lines starting with `#` are
//! ignored, as is a line whose name is empty. A name longer than
//! [`MAX_NAME_CHARS`] characters fails the whole parse.

use vstd::prelude::*;
use crate::text::{white_space, is_white_space, chars_of, text_of_range};
use crate::planner::{distinct_targets, first_of_form, selected};

verus! {

/// The longest name accepted, in characters.
pub const MAX_NAME_CHARS: usize = 100;

/// The lines of `s`, split at each `'\n'`; text after the last one is a line too.
pub open spec fn split_lines(s: Seq<char>) -> Seq<Seq<char>>
    decreases s.len(),
{
    if s.len() == 0 {
        seq![Seq::<char>::empty()]
    } else {
        let prev = split_lines(s.drop_last());
        if s.last() == '\n' {
            prev.push(Seq::empty())
        } else {
            prev.update(prev.len() - 1, prev.last().push(s.last()))
        }
    }
}

pub open spec fn trim_start(s: Seq<char>) -> Seq<char>
    decreases s.len(),
{
    if s.len() > 0 && white_space(s[0]) {
        trim_start(s.drop_first())
    } else {
        s
    }
}

pub open spec fn trim_end(s: Seq<char>) -> Seq<char>
    decreases s.len(),
{
    if s.len() > 0 && white_space(s.last()) {
        trim_end(s.drop_last())
    } else {
        s
    }
}

/// `s` without leading and trailing white space.
pub open spec fn trim(s: Seq<char>) -> Seq<char> {
    trim_end(trim_start(s))
}

/// `p` is the position of the first `|` in `t`.
pub open spec fn pipe_at(t: Seq<char>, p: int) -> bool {
    &&& 0 <= p < t.len()
    &&& t[p] == '|'
    &&& forall|q: int| 0 <= q < p ==> #[trigger] t[q] != '|'
}

pub open spec fn has_pipe(t: Seq<char>) -> bool {
    exists|p: int| 0 <= p < t.len() && #[trigger] t[p] == '|'
}

pub open spec fn first_pipe(t: Seq<char>) -> int {
    choose|p: int| pipe_at(t, p)
}

/// The name and the tags a line holds, or `None` for a line that is ignored.
pub open spec fn line_entry(l: Seq<char>) -> Option<(Seq<char>, Option<Seq<char>>)> {
    let t = trim(l);
    if t.len() == 0 || t[0] == '#' {
        None
    } else {
        let name = if has_pipe(t) {
            trim(t.subrange(0, first_pipe(t)))
        } else {
            t
        };
        let tags = if has_pipe(t) {
            Some(trim(t.subrange(first_pipe(t) + 1, t.len() as int)))
        } else {
            None
        };
        if name.len() == 0 {
            None
        } else {
            Some((name, tags))
        }
    }
}

/// An entry of the list: its line number (from 1), its name and its tags.
pub struct EntryView {
    pub line: nat,
    pub name: Seq<char>,
    pub tags: Option<Seq<char>>,
}

/// Adds line number `k`, whose text is `line`, to what the lines before it gave.
pub open spec fn parse_step(
    prev: Result<Seq<EntryView>, (nat, Seq<char>)>,
    line: Seq<char>,
    k: nat,
) -> Result<Seq<EntryView>, (nat, Seq<char>)> {
    match prev {
        Err(e) => Err(e),
        Ok(es) => match line_entry(line) {
            None => Ok(es),
            Some((name, tags)) => if name.len() > MAX_NAME_CHARS {
                Err((k, name))
            } else {
                Ok(es.push(EntryView { line: k, name, tags }))
            },
        },
    }
}

/// The entries of a list of lines, or the number and name of the first line
/// whose name is too long.
pub open spec fn parse_lines(lines: Seq<Seq<char>>) -> Result<Seq<EntryView>, (nat, Seq<char>)>
    decreases lines.len(),
{
    if lines.len() == 0 {
        Ok(Seq::empty())
    } else {
        parse_step(parse_lines(lines.drop_last()), lines.last(), lines.len())
    }
}

/// An entry of the list.
#[derive(Debug)]
pub struct ArtistEntry {
    pub line: usize,
    pub name: String,
    pub tags: Option<String>,
}

impl View for ArtistEntry {
    type V = EntryView;

    open spec fn view(&self) -> EntryView {
        EntryView {
            line: self.line as nat,
            name: self.name@,
            tags: match self.tags {
                Some(t) => Some(t@),
                None => None,
            },
        }
    }
}

/// Why a list could not be read.
#[derive(Debug)]
pub enum ParseError {
    /// The name on line `line` is longer than [`MAX_NAME_CHARS`] characters.
    NameTooLong { line: usize, name: String },
}

pub open spec fn entry_views(v: Seq<ArtistEntry>) -> Seq<EntryView> {
    v.map_values(|e: ArtistEntry| e@)
}

pub open spec fn error_view(e: ParseError) -> (nat, Seq<char>) {
    match e {
        ParseError::NameTooLong { line, name } => (line as nat, name@),
    }
}

pub open spec fn progress_view(entries: Seq<ArtistEntry>, failed: Option<ParseError>) -> Result<
    Seq<EntryView>,
    (nat, Seq<char>),
> {
    match failed {
        Some(e) => Err(error_view(e)),
        None => Ok(entry_views(entries)),
    }
}

proof fn lemma_split_len(s: Seq<char>)
    ensures
        1 <= split_lines(s).len() <= s.len() + 1,
    decreases s.len(),
{
    if s.len() > 0 {
        lemma_split_len(s.drop_last());
    }
}

proof fn lemma_trim_start_at(s: Seq<char>, lo: int)
    requires
        0 <= lo <= s.len(),
        forall|k: int| 0 <= k < lo ==> white_space(#[trigger] s[k]),
        lo == s.len() || !white_space(s[lo]),
    ensures
        trim_start(s) == s.subrange(lo, s.len() as int),
    decreases lo,
{
    if lo == 0 {
        assert(s.subrange(0, s.len() as int) =~= s);
    } else {
        let d = s.drop_first();
        assert forall|k: int| 0 <= k < lo - 1 implies white_space(#[trigger] d[k]) by {
            assert(d[k] == s[k + 1]);
        }
        assert(white_space(s[0]));
        lemma_trim_start_at(d, lo - 1);
        assert(d.subrange(lo - 1, d.len() as int) =~= s.subrange(lo, s.len() as int));
    }
}

proof fn lemma_trim_end_at(s: Seq<char>, hi: int)
    requires
        0 <= hi <= s.len(),
        forall|k: int| hi <= k < s.len() ==> white_space(#[trigger] s[k]),
        hi == 0 || !white_space(s[hi - 1]),
    ensures
        trim_end(s) == s.subrange(0, hi),
    decreases s.len() - hi,
{
    if hi == s.len() {
        assert(s.subrange(0, hi) =~= s);
    } else {
        let d = s.drop_last();
        assert(white_space(s[s.len() - 1]));
        assert forall|k: int| hi <= k < d.len() implies white_space(#[trigger] d[k]) by {
            assert(d[k] == s[k]);
        }
        lemma_trim_end_at(d, hi);
        assert(d.subrange(0, hi) =~= s.subrange(0, hi));
    }
}

/// First position in `[a, b)` that is not white space, or `b`.
fn skip_white(cs: &Vec<char>, a: usize, b: usize) -> (r: usize)
    requires
        a <= b <= cs@.len(),
    ensures
        a <= r <= b,
        forall|k: int| a <= k < r ==> white_space(#[trigger] cs@[k]),
        r < b ==> !white_space(cs@[r as int]),
{
    for i in a..b
        invariant
            b <= cs@.len(),
            forall|k: int| a <= k < i ==> white_space(#[trigger] cs@[k]),
    {
        if !is_white_space(cs[i]) {
            return i;
        }
    }
    b
}

/// End of `[a, b)` once trailing white space is dropped.
fn skip_white_back(cs: &Vec<char>, a: usize, b: usize) -> (r: usize)
    requires
        a <= b <= cs@.len(),
    ensures
        a <= r <= b,
        forall|k: int| r <= k < b ==> white_space(#[trigger] cs@[k]),
        r > a ==> !white_space(cs@[r - 1]),
{
    let mut j = b;
    while j > a
        invariant
            a <= j <= b <= cs@.len(),
            forall|k: int| j <= k < b ==> white_space(#[trigger] cs@[k]),
        decreases j - a,
    {
        if !is_white_space(cs[j - 1]) {
            return j;
        }
        j = j - 1;
    }
    a
}

/// The bounds of `[a, b)` trimmed.
fn trim_range(cs: &Vec<char>, a: usize, b: usize) -> (r: (usize, usize))
    requires
        a <= b <= cs@.len(),
    ensures
        a <= r.0 <= r.1 <= b,
        cs@.subrange(r.0 as int, r.1 as int) == trim(cs@.subrange(a as int, b as int)),
{
    let lo = skip_white(cs, a, b);
    let hi = skip_white_back(cs, lo, b);
    proof {
        let s = cs@.subrange(a as int, b as int);
        assert forall|k: int| 0 <= k < lo - a implies white_space(#[trigger] s[k]) by {
            assert(s[k] == cs@[a + k]);
        }
        if lo < b {
            assert(s[lo - a] == cs@[lo as int]);
        }
        lemma_trim_start_at(s, lo - a);
        let t = s.subrange(lo - a, s.len() as int);
        assert(t =~= cs@.subrange(lo as int, b as int));
        assert forall|k: int| hi - lo <= k < t.len() implies white_space(#[trigger] t[k]) by {
            assert(t[k] == cs@[lo + k]);
        }
        if hi > lo {
            assert(t[hi - lo - 1] == cs@[hi - 1]);
        }
        lemma_trim_end_at(t, hi - lo);
        assert(t.subrange(0, hi - lo) =~= cs@.subrange(lo as int, hi as int));
    }
    (lo, hi)
}

/// Position of the first `|` in `[a, b)`.
fn find_pipe(cs: &Vec<char>, a: usize, b: usize) -> (r: Option<usize>)
    requires
        a <= b <= cs@.len(),
    ensures
        match r {
            Some(p) => a <= p < b && cs@[p as int] == '|' && forall|q: int|
                a <= q < p ==> #[trigger] cs@[q] != '|',
            None => forall|q: int| a <= q < b ==> #[trigger] cs@[q] != '|',
        },
{
    for i in a..b
        invariant
            b <= cs@.len(),
            forall|q: int| a <= q < i ==> #[trigger] cs@[q] != '|',
    {
        if cs[i] == '|' {
            return Some(i);
        }
    }
    None
}

/// Adds the line `[a, b)` of `cs`, numbered `line`, to the entries read so far.
fn add_line(
    cs: &Vec<char>,
    a: usize,
    b: usize,
    line: usize,
    entries: &mut Vec<ArtistEntry>,
    failed: &mut Option<ParseError>,
)
    requires
        a <= b <= cs@.len(),
    ensures
        progress_view(final(entries)@, *final(failed)) == parse_step(
            progress_view(old(entries)@, *old(failed)),
            cs@.subrange(a as int, b as int),
            line as nat,
        ),
{
    if failed.is_some() {
        return;
    }
    let ghost l = cs@.subrange(a as int, b as int);
    let (lo, hi) = trim_range(cs, a, b);
    let ghost t = trim(l);
    if lo == hi || cs[lo] == '#' {
        proof {
            if lo < hi {
                assert(t[0] == cs@[lo as int]);
            }
        }
        return;
    }
    let (nlo, nhi, tags) = match find_pipe(cs, lo, hi) {
        Some(p) => {
            let (nlo, nhi) = trim_range(cs, lo, p);
            let (tlo, thi) = trim_range(cs, p + 1, hi);
            proof {
                assert(pipe_at(t, p - lo)) by {
                    assert forall|q: int| 0 <= q < p - lo implies #[trigger] t[q] != '|' by {
                        assert(t[q] == cs@[lo + q]);
                    }
                    assert(t[p - lo] == cs@[p as int]);
                }
                assert(has_pipe(t)) by {
                    assert(t[p - lo] == '|');
                }
                let f = first_pipe(t);
                assert(pipe_at(t, f));
                if f < p - lo {
                    assert(t[f] == cs@[lo + f]);
                } else if f > p - lo {
                    assert(t[p - lo] != '|');
                }
                assert(f == p - lo);
                assert(t.subrange(0, f) =~= cs@.subrange(lo as int, p as int));
                assert(t.subrange(f + 1, t.len() as int) =~= cs@.subrange(p + 1, hi as int));
            }
            (nlo, nhi, Some(text_of_range(cs.as_slice(), tlo, thi)))
        },
        None => {
            proof {
                assert(!has_pipe(t)) by {
                    assert forall|q: int| 0 <= q < t.len() implies #[trigger] t[q] != '|' by {
                        assert(t[q] == cs@[lo + q]);
                    }
                }
            }
            (lo, hi, None)
        },
    };
    if nlo == nhi {
        return;
    }
    let name = text_of_range(cs.as_slice(), nlo, nhi);
    if nhi - nlo > MAX_NAME_CHARS {
        *failed = Some(ParseError::NameTooLong { line, name });
    } else {
        let ghost before = entries@;
        entries.push(ArtistEntry { line, name, tags });
        assert(entry_views(entries@) =~= entry_views(before).push(entries@.last()@));
    }
}

/// Reads the entries of a target list.
pub fn parse_artist_entries(content: &str) -> (r: Result<Vec<ArtistEntry>, ParseError>)
    ensures
        match r {
            Ok(v) => parse_lines(split_lines(content@)) == Ok::<Seq<EntryView>, (nat, Seq<char>)>(
                entry_views(v@),
            ),
            Err(e) => parse_lines(split_lines(content@)) == Err::<Seq<EntryView>, (nat, Seq<char>)>(
                error_view(e),
            ),
        },
{
    let cs = chars_of(content);
    let n = cs.len();
    let mut entries: Vec<ArtistEntry> = Vec::new();
    let mut failed: Option<ParseError> = None;
    let mut start: usize = 0;
    let mut done: usize = 0;
    let mut i: usize = 0;
    proof {
        assert(cs@.take(0) =~= Seq::<char>::empty());
        assert(split_lines(cs@.take(0)).drop_last() =~= Seq::<Seq<char>>::empty());
        assert(entry_views(entries@) =~= Seq::<EntryView>::empty());
        assert(cs@.subrange(0, 0) =~= Seq::<char>::empty());
    }
    while i < n
        invariant
            cs@ == content@,
            n == cs@.len(),
            start <= i <= n,
            done + 1 == split_lines(cs@.take(i as int)).len(),
            done <= start,
            split_lines(cs@.take(i as int)).last() == cs@.subrange(start as int, i as int),
            parse_lines(split_lines(cs@.take(i as int)).drop_last()) == progress_view(
                entries@,
                failed,
            ),
        decreases n - i,
    {
        let ghost prefix = cs@.take(i as int);
        let ghost lines = split_lines(prefix);
        proof {
            lemma_split_len(prefix);
            assert(cs@.take(i + 1).drop_last() =~= prefix);
            assert(cs@.take(i + 1).last() == cs@[i as int]);
            assert(lines.drop_last().push(lines.last()) =~= lines);
        }
        if cs[i] == '\n' {
            add_line(&cs, start, i, done + 1, &mut entries, &mut failed);
            start = i + 1;
            done = done + 1;
            proof {
                let next = split_lines(cs@.take(i + 1));
                assert(next == lines.push(Seq::<char>::empty()));
                assert(next.drop_last() =~= lines);
                assert(cs@.subrange(start as int, i + 1) =~= Seq::<char>::empty());
            }
        } else {
            proof {
                let next = split_lines(cs@.take(i + 1));
                assert(next == lines.update(lines.len() - 1, lines.last().push(cs@[i as int])));
                assert(next.drop_last() =~= lines.drop_last());
                assert(cs@.subrange(start as int, i + 1) =~= cs@.subrange(start as int, i as int).push(
                    cs@[i as int],
                ));
            }
        }
        i = i + 1;
    }
    proof {
        assert(cs@.take(n as int) =~= cs@);
        let lines = split_lines(cs@);
        lemma_split_len(cs@);
        assert(lines.drop_last().push(lines.last()) =~= lines);
    }
    if start < n {
        add_line(&cs, start, n, done + 1, &mut entries, &mut failed);
    } else {
        proof {
            let empty = cs@.subrange(start as int, n as int);
            assert(empty.len() == 0);
            assert(trim_start(empty) == empty);
            assert(trim(empty) == empty);
        }
    }
    match failed {
        Some(e) => Err(e),
        None => Ok(entries),
    }
}

/// Line `k` (from 0) holds a name longer than [`MAX_NAME_CHARS`] characters.
pub open spec fn name_too_long(lines: Seq<Seq<char>>, k: int) -> bool {
    0 <= k < lines.len() && match line_entry(lines[k]) {
        Some((name, _)) => name.len() > MAX_NAME_CHARS,
        None => false,
    }
}

/// A list fails to parse exactly when one of its names is longer than
/// [`MAX_NAME_CHARS`] characters; the error names the first such line.
pub proof fn lemma_parse_fails_iff_long_name(lines: Seq<Seq<char>>)
    ensures
        parse_lines(lines) is Err <==> exists|k: int| #[trigger] name_too_long(lines, k),
        parse_lines(lines) matches Err((line, name)) ==> ({
            let k = line - 1;
            &&& name_too_long(lines, k)
            &&& line_entry(lines[k]) matches Some((n, _)) && n == name
            &&& forall|j: int| 0 <= j < k ==> !#[trigger] name_too_long(lines, j)
        }),
    decreases lines.len(),
{
    if lines.len() > 0 {
        let p = lines.drop_last();
        lemma_parse_fails_iff_long_name(p);
        assert forall|j: int| 0 <= j < p.len() implies #[trigger] name_too_long(p, j)
            == name_too_long(lines, j) by {
            assert(p[j] == lines[j]);
        }
        let last = lines.len() - 1;
        assert(lines.last() == lines[last]);
        match parse_lines(p) {
            Err((line, name)) => {
                let k = line - 1;
                assert(p[k] == lines[k]);
                assert(name_too_long(lines, k));
                assert forall|j: int| 0 <= j < k implies !#[trigger] name_too_long(lines, j) by {
                    assert(name_too_long(p, j) == name_too_long(lines, j));
                }
            },
            Ok(_) => {
                assert forall|j: int| 0 <= j < last implies !#[trigger] name_too_long(lines, j) by {
                    assert(!name_too_long(p, j));
                }
                if !name_too_long(lines, last) {
                    assert forall|k: int| !#[trigger] name_too_long(lines, k) by {
                        if 0 <= k < last {
                            assert(!name_too_long(p, k));
                        }
                    }
                }
            },
        }
    }
}

/// The names of the entries.
pub open spec fn entry_names(es: Seq<EntryView>) -> Seq<Seq<char>> {
    es.map_values(|e: EntryView| e.name)
}

/// Reads the artist names of a target list, in order, keeping only the first
/// name of each lower-case form.
pub fn parse_artists_file(content: &str) -> (r: Result<Vec<String>, ParseError>)
    ensures
        match r {
            Ok(v) => exists|es: Seq<EntryView>|
                parse_lines(split_lines(content@)) == Ok::<Seq<EntryView>, (nat, Seq<char>)>(es)
                    && crate::planner::texts(v@) == selected(
                    entry_names(es),
                    first_of_form(entry_names(es)),
                ),
            Err(e) => parse_lines(split_lines(content@)) == Err::<Seq<EntryView>, (nat, Seq<char>)>(
                error_view(e),
            ),
        },
{
    match parse_artist_entries(content) {
        Ok(entries) => {
            let mut names: Vec<String> = Vec::new();
            for i in 0..entries.len()
                invariant
                    crate::planner::texts(names@) == entry_names(entry_views(entries@)).take(i as int),
            {
                let ghost before = names@;
                names.push(entries[i].name.clone());
                assert(names@ == before.push(entries@[i as int].name));
                assert(crate::planner::texts(names@) =~= crate::planner::texts(before).push(
                    entries@[i as int].name@,
                ));
                assert(entry_names(entry_views(entries@))[i as int] == entries@[i as int].name@);
                assert(crate::planner::texts(names@) =~= entry_names(entry_views(entries@)).take(i + 1));
            }
            assert(entry_names(entry_views(entries@)).take(entries@.len() as int) =~= entry_names(
                entry_views(entries@),
            ));
            Ok(distinct_targets(&names))
        },
        Err(e) => Err(e),
    }
}

} // verus!
