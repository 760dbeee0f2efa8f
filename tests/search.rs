use lyrical::genius::{
    filter_matches, find_delimiter, first_match, CatalogEntry, GeniusError, Search, SearchStep,
};

fn song(artist: &str, title: &str, url: &str) -> CatalogEntry {
    CatalogEntry {
        kind: "song".to_string(),
        artist_names: Some(artist.to_string()),
        title_with_featured: Some(title.to_string()),
        url: url.to_string(),
    }
}

fn other(kind: &str, url: &str) -> CatalogEntry {
    CatalogEntry {
        kind: kind.to_string(),
        artist_names: Some("Band".to_string()),
        title_with_featured: Some("Tune".to_string()),
        url: url.to_string(),
    }
}

/// Runs a search against a catalog given as a function of the query text,
/// and returns its result with the queries that were sent.
fn run(
    artist: &str,
    title: &str,
    max: usize,
    catalog: impl Fn(&str) -> Vec<CatalogEntry>,
) -> (Vec<String>, Vec<String>) {
    let mut search = Search::new(artist, title, max);
    let mut sent = vec![search.query()];
    let mut hits = catalog(&sent[0]);
    loop {
        match search.on_hits(&hits) {
            SearchStep::Done(urls) => return (urls, sent),
            SearchStep::Query(q) => {
                hits = catalog(&q);
                sent.push(q);
            }
        }
    }
}

#[test]
fn query_is_lower_case() {
    let search = Search::new("The BAND", "Some TUNE", 3);
    assert_eq!(search.query(), "the band some tune");
}

#[test]
fn filter_keeps_songs_matching_in_lower_case() {
    let hits = vec![
        other("album", "u0"),
        song("The Band", "Some Tune (Live)", "u1"),
        song("Other", "Some Tune", "u2"),
        song("THE BAND feat. X", "SOME TUNE", "u3"),
        CatalogEntry {
            kind: "song".to_string(),
            artist_names: None,
            title_with_featured: Some("some tune".to_string()),
            url: "u4".to_string(),
        },
    ];
    assert_eq!(filter_matches(&hits, "the band", "some tune", 10), vec!["u1", "u3"]);
    assert_eq!(filter_matches(&hits, "", "some tune", 10), vec!["u1", "u2", "u3", "u4"]);
    assert_eq!(filter_matches(&hits, "", "some tune", 2), vec!["u1", "u2"]);
    assert_eq!(filter_matches(&hits, "", "some tune", 0), Vec::<String>::new());
    assert_eq!(filter_matches(&hits, "", "missing", 5), Vec::<String>::new());
}

#[test]
fn search_is_bounded_and_ordered() {
    let catalog = |_: &str| {
        vec![
            song("A", "x", "u1"),
            song("A", "x", "u2"),
            other("artist", "u3"),
            song("A", "x", "u4"),
            song("A", "x", "u2"),
        ]
    };
    let (urls, sent) = run("a", "x", 3, catalog);
    assert_eq!(urls, vec!["u1", "u2", "u4"]);
    assert_eq!(sent.len(), 1);
    let (all, _) = run("a", "x", 20, catalog);
    assert_eq!(all, vec!["u1", "u2", "u4", "u2"]);
}

#[test]
fn retry_strips_parenthesised_part() {
    let catalog = |q: &str| {
        if q == "artist - song" {
            vec![song("Artist", "Song", "found")]
        } else {
            vec![song("Artist", "Another", "nope")]
        }
    };
    let (urls, sent) = run("Artist", "Song (Remix)", 5, catalog);
    assert_eq!(urls, vec!["found"]);
    assert_eq!(sent, vec!["artist song (remix)", "artist - song"]);
}

#[test]
fn retry_happens_once() {
    let (urls, sent) = run("Artist", "Song [Live] (Remix)", 5, |_: &str| {
        vec![song("Artist", "Another", "nope")]
    });
    assert!(urls.is_empty());
    assert_eq!(sent.len(), 2);
    assert_eq!(sent[1], "artist - song");
}

#[test]
fn no_retry_without_delimiter() {
    let (urls, sent) = run("Artist", "Song", 5, |_: &str| Vec::new());
    assert!(urls.is_empty());
    assert_eq!(sent.len(), 1);
}

#[test]
fn delimiters_are_found() {
    assert_eq!(find_delimiter("ab {c} (d)"), Some(3));
    assert_eq!(find_delimiter("[x]"), Some(0));
    assert_eq!(find_delimiter("plain"), None);
}

#[test]
fn no_song_means_no_lyrics() {
    let catalog = |_: &str| vec![other("album", "u1"), other("artist", "u2")];
    let (urls, _) = run("Band", "Tune (Live)", 1, catalog);
    assert!(urls.is_empty());
    assert_eq!(
        first_match("Band", "Tune (Live)", &urls),
        Err(GeniusError::NoResultsFound("Band - Tune (Live)".to_string()))
    );
}

#[test]
fn first_match_takes_first_url() {
    let urls = vec!["u1".to_string(), "u2".to_string()];
    assert_eq!(first_match("a", "t", &urls), Ok("u1".to_string()));
}

#[test]
fn genius_error_message() {
    assert_eq!(
        GeniusError::NoResultsFound("a - t".to_string()).message(),
        "No lyrics found for `a - t`"
    );
}
