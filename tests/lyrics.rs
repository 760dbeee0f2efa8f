use lyrical::lyrics::{join_lines, lyrics_from_page, lyrics_report};

#[test]
fn extracts_lyrics_containers() {
    let page = "<html><body><div>skip</div>\
        <div data-lyrics-container=\"true\">Line one<br/>Line <i>two</i></div>\
        <p>between</p>\
        <div data-lyrics-container=\"true\">Verse two</div></body></html>";
    assert_eq!(
        lyrics_from_page(page),
        Some("Line one\nLine two\nVerse two\n".to_string())
    );
    assert_eq!(lyrics_from_page("<p>nothing</p>"), Some(String::new()));
}

#[test]
fn joins_with_line_breaks() {
    assert_eq!(join_lines(&vec!["a".to_string(), "b".to_string()]), "a\nb\n");
    assert_eq!(join_lines(&vec![]), "");
}

#[test]
fn report_names_url() {
    assert_eq!(
        lyrics_report("https://x/y", "la la"),
        "Lyrics retrieved from https://x/y\n\nla la"
    );
}
