//! Turning a fetched lyrics page into plain text.

use vstd::prelude::*;
use vstd::string::*;
use crate::cli::views;

verus! {

/// `s` with every match of `pat`, taken left to right without overlap,
/// replaced by `rep`.
pub open spec fn replaced(s: Seq<char>, pat: Seq<char>, rep: Seq<char>) -> Seq<char>
    decreases s.len(),
{
    if s.len() == 0 {
        s
    } else if 0 < pat.len() <= s.len() && s.take(pat.len() as int) == pat {
        rep + replaced(s.skip(pat.len() as int), pat, rep)
    } else {
        seq![s[0]] + replaced(s.skip(1), pat, rep)
    }
}

/// Relies on `str::replace` with a string pattern: a new string in which
/// all matches of `pat` are replaced by `rep`.
#[verifier::external_body]
fn replace_text(s: &str, pat: &str, rep: &str) -> (r: String)
    requires
        pat@.len() > 0,
    ensures
        r@ == replaced(s@, pat@, rep@),
{
    s.replace(pat, rep)
}

/// The text of each element of the HTML document `page` that the CSS
/// selector `selector` matches, in document order, as scraper gives it.
pub uninterp spec fn selected_texts(page: Seq<char>, selector: Seq<char>) -> Seq<Seq<char>>;

/// Relies on scraper's `Selector::parse`, `Html::parse_document`,
/// `Html::select` and `ElementRef::text`: `None` when the selector does not
/// parse, else the descendant text of each matching element, joined, in
/// document order.
#[verifier::external_body]
fn select_texts(page: &str, selector: &str) -> (r: Option<Vec<String>>)
    ensures
        r matches Some(v) ==> views(v@) == selected_texts(page@, selector@),
{
    let selector = scraper::Selector::parse(selector).ok()?;
    let html = scraper::Html::parse_document(page);
    Some(html.select(&selector).map(|e| e.text().collect::<String>()).collect())
}

/// Each text followed by a line break, all in one string.
pub open spec fn joined_lines(texts: Seq<Seq<char>>) -> Seq<char>
    decreases texts.len(),
{
    if texts.len() == 0 {
        Seq::empty()
    } else {
        joined_lines(texts.drop_last()) + texts.last() + "\n"@
    }
}

/// Puts a line break after each text.
pub fn join_lines(texts: &Vec<String>) -> (r: String)
    ensures
        r@ == joined_lines(views(texts@)),
{
    let mut out = String::new();
    let mut i: usize = 0;
    assert(views(texts@).take(0) =~= Seq::<Seq<char>>::empty());
    while i < texts.len()
        invariant
            i <= texts.len(),
            out@ == joined_lines(views(texts@).take(i as int)),
        decreases texts.len() - i,
    {
        let ghost before = views(texts@).take(i as int);
        assert(views(texts@).take(i + 1).drop_last() =~= before);
        out.append(texts[i].as_str());
        out.append("\n");
        i += 1;
    }
    assert(views(texts@).take(texts.len() as int) =~= views(texts@));
    out
}

/// The lyrics on a page: `<br/>` tags become line breaks, then the text of
/// each lyrics container follows, each closed by a line break. `None` only
/// where the container selector is refused by the HTML library.
pub fn lyrics_from_page(page: &str) -> (r: Option<String>)
    ensures
        r matches Some(t) ==> t@ == joined_lines(
            selected_texts(
                replaced(page@, "<br/>"@, "\n"@),
                "div[data-lyrics-container=\"true\"]"@,
            ),
        ),
{
    proof {
        reveal_strlit("<br/>");
    }
    let broken = replace_text(page, "<br/>", "\n");
    match select_texts(broken.as_str(), "div[data-lyrics-container=\"true\"]") {
        Some(texts) => Some(join_lines(&texts)),
        None => None,
    }
}

/// The text printed for lyrics fetched from `url`.
pub fn lyrics_report(url: &str, lyrics: &str) -> (r: String)
    ensures
        r@ == "Lyrics retrieved from "@ + url@ + "\n\n"@ + lyrics@,
{
    String::from_str("Lyrics retrieved from ").concat(url).concat("\n\n").concat(lyrics)
}

} // verus!
