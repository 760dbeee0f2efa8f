//! Choosing lyrics pages among the hits of a catalog search.
//!
//! A search is a small state machine: [`Search::query`] gives the text to send
//! to the catalog, and [`Search::on_hits`] takes the hits that came back and
//! says whether to query once more, with a shortened title, or which page
//! urls were found.

use vstd::prelude::*;
use vstd::string::*;
use crate::cli::views;
use crate::text::{same_text, trim, trimmed};

verus! {

/// One hit of a catalog search.
#[derive(Debug, Clone, PartialEq, Eq)]
pub struct CatalogEntry {
    pub kind: String,
    pub artist_names: Option<String>,
    pub title_with_featured: Option<String>,
    pub url: String,
}

pub struct EntryModel {
    pub kind: Seq<char>,
    pub artist_names: Option<Seq<char>>,
    pub title_with_featured: Option<Seq<char>>,
    pub url: Seq<char>,
}

pub open spec fn opt_text(o: Option<String>) -> Option<Seq<char>> {
    match o {
        Some(s) => Some(s@),
        None => None,
    }
}

impl View for CatalogEntry {
    type V = EntryModel;

    open spec fn view(&self) -> EntryModel {
        EntryModel {
            kind: self.kind@,
            artist_names: opt_text(self.artist_names),
            title_with_featured: opt_text(self.title_with_featured),
            url: self.url@,
        }
    }
}

pub open spec fn entry_views(s: Seq<CatalogEntry>) -> Seq<EntryModel> {
    s.map_values(|e: CatalogEntry| e@)
}

#[derive(Debug, PartialEq, Eq, PartialOrd, Ord)]
pub enum GeniusError {
    NoResultsFound(String),
}

/// The lower-case form of a string, as `str::to_lowercase` gives it.
pub uninterp spec fn lower_of(s: Seq<char>) -> Seq<char>;

/// Relies on `str::to_lowercase`: the lower-case mapping of the characters,
/// which depends on the characters alone.
#[verifier::external_body]
fn lowercase(s: &str) -> (r: String)
    ensures
        r@ == lower_of(s@),
{
    s.to_lowercase()
}

/// Whether `part` occurs in `s` as a run of consecutive characters.
pub open spec fn has_part(s: Seq<char>, part: Seq<char>) -> bool {
    exists|i: int| 0 <= i <= s.len() - part.len() && #[trigger] s.subrange(i, i + part.len()) == part
}

/// Relies on `str::contains` with a string pattern: true exactly when
/// `part` matches a sub-slice of `s`.
#[verifier::external_body]
fn contains_text(s: &str, part: &str) -> (r: bool)
    ensures
        r == has_part(s@, part@),
{
    s.contains(part)
}

/// Whether an entry is a song whose artist names hold `artist` (unless
/// `artist` is empty) and whose title holds `title`, both compared in
/// lower case.
pub open spec fn accepts(e: EntryModel, artist: Seq<char>, title: Seq<char>) -> bool {
    &&& e.kind == "song"@
    &&& (artist.len() == 0 || (e.artist_names is Some && has_part(
        lower_of(e.artist_names->Some_0),
        artist,
    )))
    &&& e.title_with_featured is Some
    &&& has_part(lower_of(e.title_with_featured->Some_0), title)
}

/// The urls of the first `max` accepted entries, in catalog order.
pub open spec fn picked(es: Seq<EntryModel>, artist: Seq<char>, title: Seq<char>, max: nat) -> Seq<
    Seq<char>,
>
    decreases es.len(),
{
    if es.len() == 0 || max == 0 {
        Seq::empty()
    } else if accepts(es[0], artist, title) {
        seq![es[0].url] + picked(es.skip(1), artist, title, (max - 1) as nat)
    } else {
        picked(es.skip(1), artist, title, max)
    }
}

/// Keeps the urls of the first `max_results` entries that [`accepts`] takes;
/// `artist` and `title` are expected in lower case.
pub fn filter_matches(
    matches: &Vec<CatalogEntry>,
    artist: &str,
    title: &str,
    max_results: usize,
) -> (r: Vec<String>)
    ensures
        views(r@) == picked(entry_views(matches@), artist@, title@, max_results as nat),
{
    let ghost es = entry_views(matches@);
    let mut results: Vec<String> = Vec::new();
    let mut i: usize = 0;
    assert(es.skip(0) =~= es);
    assert(views(results@) =~= Seq::<Seq<char>>::empty());
    while i < matches.len()
        invariant
            i <= matches.len(),
            es == entry_views(matches@),
            results.len() <= max_results,
            picked(es, artist@, title@, max_results as nat) == views(results@) + picked(
                es.skip(i as int),
                artist@,
                title@,
                (max_results - results.len()) as nat,
            ),
        decreases matches.len() - i,
    {
        let ghost rest = es.skip(i as int);
        let ghost before = views(results@);
        let ghost room = (max_results - results.len()) as nat;
        if results.len() >= max_results {
            assert(picked(rest, artist@, title@, room) =~= Seq::<Seq<char>>::empty());
            assert(before + Seq::<Seq<char>>::empty() =~= before);
            return results;
        }
        let entry = &matches[i];
        assert(rest[0] == entry@);
        assert(rest.skip(1) =~= es.skip(i + 1));
        let mut ok = same_text(entry.kind.as_str(), "song");
        if ok && artist.unicode_len() > 0 {
            ok = match &entry.artist_names {
                Some(names) => contains_text(lowercase(names.as_str()).as_str(), artist),
                None => false,
            };
        }
        if ok {
            ok = match &entry.title_with_featured {
                Some(song_title) => contains_text(lowercase(song_title.as_str()).as_str(), title),
                None => false,
            };
        }
        if ok {
            results.push(entry.url.clone());
            assert(views(results@) =~= before.push(entry@.url));
            assert(before.push(entry@.url) + picked(es.skip(i + 1), artist@, title@, (room - 1) as nat)
                =~= before + (seq![entry@.url] + picked(
                es.skip(i + 1),
                artist@,
                title@,
                (room - 1) as nat,
            )));
        }
        i += 1;
    }
    assert(picked(es.skip(i as int), artist@, title@, (max_results - results.len()) as nat)
        =~= Seq::<Seq<char>>::empty());
    assert(views(results@) + Seq::<Seq<char>>::empty() =~= views(results@));
    results
}

pub open spec fn is_delimiter(c: char) -> bool {
    c == '(' || c == '{' || c == '['
}

pub open spec fn has_delimiter(t: Seq<char>) -> bool {
    exists|i: int| 0 <= i < t.len() && is_delimiter(#[trigger] t[i])
}

/// `i` is the position of the first delimiter in `t`.
pub open spec fn first_delimiter(t: Seq<char>, i: int) -> bool {
    &&& 0 <= i < t.len()
    &&& is_delimiter(t[i])
    &&& forall|j: int| 0 <= j < i ==> !is_delimiter(#[trigger] t[j])
}

/// What is left of a title once everything from its first delimiter on is
/// cut off and the rest is trimmed.
pub open spec fn shortened_title(t: Seq<char>) -> Seq<char> {
    trimmed(t.take(choose|i: int| first_delimiter(t, i)))
}

/// The position of the first `(`, `{` or `[` in `t`.
pub fn find_delimiter(t: &str) -> (r: Option<usize>)
    ensures
        r is Some <==> has_delimiter(t@),
        r is Some ==> first_delimiter(t@, r->Some_0 as int),
{
    let n = t.unicode_len();
    let mut i: usize = 0;
    while i < n
        invariant
            i <= n,
            n == t@.len(),
            forall|j: int| 0 <= j < i ==> !is_delimiter(#[trigger] t@[j]),
        decreases n - i,
    {
        let c = t.get_char(i);
        if c == '(' || c == '{' || c == '[' {
            return Some(i);
        }
        i += 1;
    }
    None
}

/// What a [`Search`] holds, over character sequences: the lower-case artist
/// and title, the most urls wanted, and the shortened title once a second
/// query has been asked for.
pub struct SearchModel {
    pub artist: Seq<char>,
    pub title: Seq<char>,
    pub max_results: usize,
    pub retry_title: Option<Seq<char>>,
}

pub enum StepModel {
    Query(Seq<char>),
    Done(Seq<Seq<char>>),
}

/// The state of one search.
pub struct Search {
    artist: String,
    title: String,
    max_results: usize,
    retry_title: Option<String>,
}

/// What to do next: send a query to the catalog, or stop with these urls.
#[derive(Debug, PartialEq, Eq)]
pub enum SearchStep {
    Query(String),
    Done(Vec<String>),
}

impl View for Search {
    type V = SearchModel;

    closed spec fn view(&self) -> SearchModel {
        SearchModel {
            artist: self.artist@,
            title: self.title@,
            max_results: self.max_results,
            retry_title: opt_text(self.retry_title),
        }
    }
}

impl View for SearchStep {
    type V = StepModel;

    open spec fn view(&self) -> StepModel {
        match self {
            SearchStep::Query(q) => StepModel::Query(q@),
            SearchStep::Done(urls) => StepModel::Done(views(urls@)),
        }
    }
}

/// A search before any query was sent.
pub open spec fn search_start(artist: Seq<char>, title: Seq<char>, max_results: usize) -> SearchModel {
    SearchModel {
        artist: lower_of(artist),
        title: lower_of(title),
        max_results,
        retry_title: None,
    }
}

/// The query text: `"{artist} {title}"` at first, `"{artist} - {title}"`
/// with the shortened title on the second try.
pub open spec fn query_text(m: SearchModel) -> Seq<char> {
    match m.retry_title {
        None => m.artist + " "@ + m.title,
        Some(t) => m.artist + " - "@ + t,
    }
}

/// The next state and step once the hits of the last query came in. The
/// first query that finds nothing for a title with a delimiter is followed
/// by one more query with the shortened title; every other answer ends the
/// search.
pub open spec fn next_step(m: SearchModel, hits: Seq<EntryModel>) -> (SearchModel, StepModel) {
    match m.retry_title {
        None => {
            let found = picked(hits, m.artist, m.title, m.max_results as nat);
            if found.len() == 0 && has_delimiter(m.title) {
                let next = SearchModel { retry_title: Some(shortened_title(m.title)), ..m };
                (next, StepModel::Query(query_text(next)))
            } else {
                (m, StepModel::Done(found))
            }
        },
        Some(t) => (m, StepModel::Done(picked(hits, m.artist, t, m.max_results as nat))),
    }
}

impl Search {
    /// Starts a search for at most `max_results` pages.
    pub fn new(artist: &str, title: &str, max_results: usize) -> (r: Search)
        ensures
            r@ == search_start(artist@, title@, max_results),
    {
        Search {
            artist: lowercase(artist),
            title: lowercase(title),
            max_results,
            retry_title: None,
        }
    }

    /// The text of the query to send now.
    pub fn query(&self) -> (r: String)
        ensures
            r@ == query_text(self@),
    {
        let head = self.artist.clone().concat(" ");
        match &self.retry_title {
            None => head.concat(self.title.as_str()),
            Some(t) => self.artist.clone().concat(" - ").concat(t.as_str()),
        }
    }

    /// Takes the hits of the query last sent.
    pub fn on_hits(&mut self, hits: &Vec<CatalogEntry>) -> (r: SearchStep)
        ensures
            (final(self)@, r@) == next_step(old(self)@, entry_views(hits@)),
    {
        match &self.retry_title {
            Some(t) => {
                let found = filter_matches(hits, self.artist.as_str(), t.as_str(), self.max_results);
                SearchStep::Done(found)
            },
            None => {
                let found = filter_matches(
                    hits,
                    self.artist.as_str(),
                    self.title.as_str(),
                    self.max_results,
                );
                if found.len() == 0 {
                    match find_delimiter(self.title.as_str()) {
                        Some(cut) => {
                            let ghost tv = self.title@;
                            proof {
                                assert forall|k: int| first_delimiter(tv, k) implies k == cut by {
                                    if k < cut {
                                        assert(!is_delimiter(tv[k]));
                                    } else if k > cut {
                                        assert(!is_delimiter(tv[cut as int]));
                                    }
                                }
                            }
                            let prefix = self.title.as_str().substring_char(0, cut);
                            assert(prefix@ =~= tv.take(cut as int));
                            let short = trim(prefix).to_string();
                            self.retry_title = Some(short);
                            return SearchStep::Query(self.query());
                        },
                        None => {},
                    }
                }
                SearchStep::Done(found)
            },
        }
    }
}

/// The page to fetch for a lyrics request: the first url found, or
/// `NoResultsFound` with `"{artist} - {title}"` when none was.
pub fn first_match(artist: &str, title: &str, results: &Vec<String>) -> (r: Result<String, GeniusError>)
    ensures
        match r {
            Ok(u) => results@.len() > 0 && u@ == results@[0]@,
            Err(GeniusError::NoResultsFound(q)) => results@.len() == 0 && q@ == artist@ + " - "@ + title@,
        },
{
    if results.len() == 0 {
        return Err(GeniusError::NoResultsFound(artist.to_string().concat(" - ").concat(title)));
    }
    Ok(results[0].clone())
}

impl GeniusError {
    /// The text shown to the user.
    pub fn message(&self) -> (r: String)
        ensures
            match self {
                GeniusError::NoResultsFound(q) => r@ == "No lyrics found for `"@ + q@ + "`"@,
            },
    {
        match self {
            GeniusError::NoResultsFound(q) => String::from_str("No lyrics found for `").concat(
                q.as_str(),
            ).concat("`"),
        }
    }
}

/// `urls` are the urls of entries of `es` taken in catalog order: `idx`
/// gives, for each url, the strictly increasing position of its entry.
pub open spec fn positions_in_order(urls: Seq<Seq<char>>, es: Seq<EntryModel>, idx: Seq<int>) -> bool {
    &&& idx.len() == urls.len()
    &&& forall|k: int| 0 <= k < idx.len() ==> 0 <= #[trigger] idx[k] < es.len() && es[idx[k]].url == urls[k]
    &&& forall|a: int, b: int| 0 <= a < b < idx.len() ==> #[trigger] idx[a] < #[trigger] idx[b]
}

/// The positions in `es` of the entries whose urls [`picked`] keeps.
pub proof fn picked_positions(es: Seq<EntryModel>, artist: Seq<char>, title: Seq<char>, max: nat) -> (idx: Seq<int>)
    ensures
        positions_in_order(picked(es, artist, title, max), es, idx),
        forall|k: int| 0 <= k < idx.len() ==> accepts(es[#[trigger] idx[k]], artist, title),
    decreases es.len(),
{
    if es.len() == 0 || max == 0 {
        Seq::empty()
    } else {
        let rest = es.skip(1);
        let m: nat = if accepts(es[0], artist, title) {
            (max - 1) as nat
        } else {
            max
        };
        let tail = picked_positions(rest, artist, title, m);
        let shifted = tail.map_values(|v: int| v + 1);
        assert forall|k: int| 0 <= k < shifted.len() implies 0 <= #[trigger] shifted[k] < es.len()
            && es[shifted[k]] == rest[tail[k]] by {}
        if accepts(es[0], artist, title) {
            let idx = seq![0int] + shifted;
            let urls = picked(es, artist, title, max);
            assert(urls == seq![es[0].url] + picked(rest, artist, title, m));
            assert forall|k: int| 0 <= k < idx.len() implies 0 <= #[trigger] idx[k] < es.len()
                && es[idx[k]].url == urls[k] && accepts(es[idx[k]], artist, title) by {
                if k > 0 {
                    assert(idx[k] == shifted[k - 1]);
                }
            }
            assert forall|a: int, b: int| 0 <= a < b < idx.len() implies #[trigger] idx[a]
                < #[trigger] idx[b] by {
                if a > 0 {
                    assert(idx[a] == shifted[a - 1] && idx[b] == shifted[b - 1]);
                    assert(tail[a - 1] < tail[b - 1]);
                } else {
                    assert(idx[b] == shifted[b - 1]);
                }
            }
            idx
        } else {
            assert forall|a: int, b: int| 0 <= a < b < shifted.len() implies #[trigger] shifted[a]
                < #[trigger] shifted[b] by {
                assert(tail[a] < tail[b]);
            }
            assert forall|k: int| 0 <= k < shifted.len() implies accepts(es[#[trigger] shifted[k]], artist, title) by {
                assert(accepts(rest[tail[k]], artist, title));
            }
            shifted
        }
    }
}

proof fn lemma_picked_len(es: Seq<EntryModel>, artist: Seq<char>, title: Seq<char>, max: nat)
    ensures
        picked(es, artist, title, max).len() <= max,
    decreases es.len(),
{
    if es.len() > 0 && max > 0 {
        if accepts(es[0], artist, title) {
            lemma_picked_len(es.skip(1), artist, title, (max - 1) as nat);
        } else {
            lemma_picked_len(es.skip(1), artist, title, max);
        }
    }
}

/// A search never ends with more than `max_results` urls, and the urls it
/// ends with are those of accepted entries of the last hits, in the order
/// in which the catalog ranked them.
pub proof fn lemma_done_is_bounded_and_ordered(m: SearchModel, hits: Seq<EntryModel>)
    ensures
        next_step(m, hits).1 matches StepModel::Done(urls) ==> urls.len() <= m.max_results && exists|
            idx: Seq<int>,
        | positions_in_order(urls, hits, idx),
{
    let t = match m.retry_title {
        Some(r) => r,
        None => m.title,
    };
    lemma_picked_len(hits, m.artist, t, m.max_results as nat);
    let idx = picked_positions(hits, m.artist, t, m.max_results as nat);
    assert(positions_in_order(picked(hits, m.artist, t, m.max_results as nat), hits, idx));
}

/// When the first query finds nothing for a title that holds `(`, `{` or
/// `[`, the search asks once more, as `"{artist} - {shortened title}"`, and
/// ends with what the second hits give for the shortened title; no third
/// query follows, whatever the answers.
pub proof fn lemma_retry_once(
    artist: Seq<char>,
    title: Seq<char>,
    max_results: usize,
    first: Seq<EntryModel>,
    second: Seq<EntryModel>,
    third: Seq<EntryModel>,
)
    requires
        picked(first, lower_of(artist), lower_of(title), max_results as nat).len() == 0,
        has_delimiter(lower_of(title)),
    ensures
        ({
            let s0 = search_start(artist, title, max_results);
            let short = shortened_title(lower_of(title));
            let (s1, a1) = next_step(s0, first);
            let (s2, a2) = next_step(s1, second);
            &&& a1 == StepModel::Query(lower_of(artist) + " - "@ + short)
            &&& a2 == StepModel::Done(picked(second, lower_of(artist), short, max_results as nat))
            &&& next_step(s2, third).1 is Done
        }),
{
}

/// Without a single `song` among the hits, nothing is accepted.
pub proof fn lemma_no_song_no_pick(es: Seq<EntryModel>, artist: Seq<char>, title: Seq<char>, max: nat)
    requires
        forall|i: int| 0 <= i < es.len() ==> (#[trigger] es[i]).kind != "song"@,
    ensures
        picked(es, artist, title, max).len() == 0,
    decreases es.len(),
{
    if es.len() > 0 && max > 0 {
        assert(es[0].kind != "song"@);
        let rest = es.skip(1);
        assert forall|i: int| 0 <= i < rest.len() implies (#[trigger] rest[i]).kind != "song"@ by {
            assert(rest[i] == es[i + 1]);
        }
        lemma_no_song_no_pick(rest, artist, title, max);
    }
}

/// A lookup of lyrics (a search for one page) against catalogs without a
/// single `song` ends with no url, so [`first_match`] reports
/// `NoResultsFound`.
pub proof fn lemma_no_song_no_lyrics(
    artist: Seq<char>,
    title: Seq<char>,
    first: Seq<EntryModel>,
    second: Seq<EntryModel>,
)
    requires
        forall|i: int| 0 <= i < first.len() ==> (#[trigger] first[i]).kind != "song"@,
        forall|i: int| 0 <= i < second.len() ==> (#[trigger] second[i]).kind != "song"@,
    ensures
        ({
            let s0 = search_start(artist, title, 1);
            let (s1, a1) = next_step(s0, first);
            ||| a1 == StepModel::Done(Seq::<Seq<char>>::empty())
            ||| (a1 is Query && next_step(s1, second).1 == StepModel::Done(
                Seq::<Seq<char>>::empty(),
            ))
        }),
{
    let s0 = search_start(artist, title, 1);
    lemma_no_song_no_pick(first, s0.artist, s0.title, 1);
    assert(picked(first, s0.artist, s0.title, 1) =~= Seq::<Seq<char>>::empty());
    if has_delimiter(s0.title) {
        let short = shortened_title(s0.title);
        lemma_no_song_no_pick(second, s0.artist, short, 1);
        assert(picked(second, s0.artist, short, 1) =~= Seq::<Seq<char>>::empty());
    }
}

} // verus!
