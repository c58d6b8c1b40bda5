//! Page metadata: what a fetched page's markup yields — a title, a
//! description, a favicon — with the precedence rules between the
//! sources, plus the derived site name of a URL and the conversion of
//! page markup to markdown. The parsers themselves are outside crates;
//! their results are named and the selection logic is verified.

use vstd::prelude::*;

use crate::strutil::{is_blank, is_blank_exec};

verus! {

/// What one selector's first match yields as an attribute value, after
/// trimming, if the match exists and the trimmed value is nonempty.
pub uninterp spec fn selected_attr_of(html: Seq<char>, sel: Seq<char>, attr: Seq<char>) -> Option<
    Seq<char>,
>;

/// What one selector's first match yields as trimmed inner markup, if
/// the match exists.
pub uninterp spec fn selected_text_of(html: Seq<char>, sel: Seq<char>) -> Option<Seq<char>>;

/// Whether the URL parser accepts this string as a URL.
pub uninterp spec fn url_accepted(s: Seq<char>) -> bool;

/// The host of a URL, as the URL parser renders it, if the string
/// parses as a URL with a host.
pub uninterp spec fn url_host_of(s: Seq<char>) -> Option<Seq<char>>;

/// What the markup-to-markdown converter yields for a page.
pub uninterp spec fn markdown_of(html: Seq<char>) -> Seq<char>;

/// Relies on `scraper::Html::parse_document`, `Selector::parse` and
/// `ElementRef::attr`: the first element matching the selector, read at
/// the named attribute, trimmed, empty results dropped. The result
/// depends on the three arguments alone.
#[verifier::external_body]
fn select_attr(html: &str, sel: &str, attr: &str) -> (r: Option<String>)
    ensures
        r.deep_view() == selected_attr_of(html@, sel@, attr@),
{
    let document = scraper::Html::parse_document(html);
    let selector = scraper::Selector::parse(sel).ok()?;
    document.select(&selector).next()?.attr(attr).map(|s| s.trim().to_string()).filter(
        |s| !s.is_empty(),
    )
}

/// Relies on `scraper::Html::parse_document`, `Selector::parse` and
/// `ElementRef::inner_html`: the first element matching the selector,
/// as trimmed inner markup. The result depends on the two arguments
/// alone.
#[verifier::external_body]
fn select_text(html: &str, sel: &str) -> (r: Option<String>)
    ensures
        r.deep_view() == selected_text_of(html@, sel@),
{
    let document = scraper::Html::parse_document(html);
    let selector = scraper::Selector::parse(sel).ok()?;
    document.select(&selector).next().map(|el| el.inner_html().trim().to_string())
}

/// Relies on `url::Url::parse`: whether the string is a syntactically
/// well-formed URL. The result depends on the argument alone.
#[verifier::external_body]
pub fn url_is_valid(s: &str) -> (r: bool)
    ensures
        r == url_accepted(s@),
{
    url::Url::parse(s).is_ok()
}

/// Relies on `url::Url::parse` and `Url::host_str`: the host part of
/// the URL, if it parses and has one. The result depends on the
/// argument alone.
#[verifier::external_body]
fn url_host(s: &str) -> (r: Option<String>)
    ensures
        r.deep_view() == url_host_of(s@),
{
    let parsed = url::Url::parse(s).ok()?;
    parsed.host_str().map(|h| h.to_string())
}

/// Relies on `html2md::parse_html`: the markdown rendering of the page
/// markup. The result depends on the argument alone.
#[verifier::external_body]
fn html_to_md(html: &str) -> (r: String)
    ensures
        r@ == markdown_of(html@),
{
    html2md::parse_html(html)
}

/// The metadata extracted from a page.
#[derive(Debug)]
pub struct Metadata {
    pub title: Option<String>,
    pub description: Option<String>,
    pub favicon_url: Option<String>,
}

/// The title a page's markup yields: an Open Graph title first, then a
/// Twitter card title, then the document title element.
pub open spec fn title_of_page(html: Seq<char>) -> Option<Seq<char>> {
    match selected_attr_of(html, "meta[property=\"og:title\"]"@, "content"@) {
        Some(t) => Some(t),
        None => match selected_attr_of(html, "meta[name=\"twitter:title\"]"@, "content"@) {
            Some(t) => Some(t),
            None => selected_text_of(html, "title"@),
        },
    }
}

/// The description a page's markup yields: Open Graph first, then the
/// Twitter card, then the standard description element.
pub open spec fn description_of_page(html: Seq<char>) -> Option<Seq<char>> {
    match selected_attr_of(html, "meta[property=\"og:description\"]"@, "content"@) {
        Some(t) => Some(t),
        None => match selected_attr_of(html, "meta[name=\"twitter:description\"]"@, "content"@) {
            Some(t) => Some(t),
            None => selected_attr_of(html, "meta[name=\"description\"]"@, "content"@),
        },
    }
}

/// The favicon reference a page's markup yields.
pub open spec fn favicon_of_page(html: Seq<char>) -> Option<Seq<char>> {
    selected_attr_of(html, "link[rel=\"icon\"]"@, "href"@)
}

/// Reads a page's metadata, preferring Open Graph values, then Twitter
/// card values, then the standard elements.
pub fn extract_metadata(html: &str) -> (r: Result<Metadata, crate::errors::StashError>)
    ensures
        match r {
            Ok(m) => {
                &&& m.title.deep_view() == title_of_page(html@)
                &&& m.description.deep_view() == description_of_page(html@)
                &&& m.favicon_url.deep_view() == favicon_of_page(html@)
            },
            Err(_) => false,
        },
{
    let title = match select_attr(html, "meta[property=\"og:title\"]", "content") {
        Some(t) => Some(t),
        None => match select_attr(html, "meta[name=\"twitter:title\"]", "content") {
            Some(t) => Some(t),
            None => select_text(html, "title"),
        },
    };
    let description = match select_attr(html, "meta[property=\"og:description\"]", "content") {
        Some(t) => Some(t),
        None => match select_attr(html, "meta[name=\"twitter:description\"]", "content") {
            Some(t) => Some(t),
            None => select_attr(html, "meta[name=\"description\"]", "content"),
        },
    };
    let favicon_url = select_attr(html, "link[rel=\"icon\"]", "href");
    Ok(Metadata { title, description, favicon_url })
}

/// The site name of a URL: its host, with one leading `www.` stripped.
pub open spec fn site_of_url(s: Seq<char>) -> Option<Seq<char>> {
    match url_host_of(s) {
        Some(h) => if h.len() >= 4 && h.take(4) == "www."@ {
            Some(h.skip(4))
        } else {
            Some(h)
        },
        None => None,
    }
}

/// Reads the site name off a URL: the host, with a leading `www.`
/// stripped; nothing for a string that does not parse as a URL with a
/// host.
pub fn extract_site(url: &str) -> (r: Option<String>)
    ensures
        r.deep_view() == site_of_url(url@),
{
    match url_host(url) {
        Some(h) => {
            let chars = crate::strutil::str_to_chars(h.as_str());
            proof {
                reveal_strlit("www.");
            }
            if chars.len() >= 4 && chars[0] == 'w' && chars[1] == 'w' && chars[2] == 'w'
                && chars[3] == '.' {
                let mut rest: Vec<char> = Vec::new();
                let mut i: usize = 4;
                while i < chars.len()
                    invariant
                        4 <= i <= chars@.len(),
                        rest@ == chars@.subrange(4, i as int),
                    decreases chars@.len() - i,
                {
                    rest.push(chars[i]);
                    i = i + 1;
                }
                proof {
                    assert(chars@.take(4) =~= "www."@);
                    assert(rest@ =~= h@.skip(4));
                }
                Some(crate::strutil::chars_to_string(&rest))
            } else {
                proof {
                    if h@.len() >= 4 {
                        assert(chars@.take(4) == h@.take(4));
                        if h@.take(4) == "www."@ {
                            assert(chars@[0] == 'w' && chars@[1] == 'w' && chars@[2] == 'w'
                                && chars@[3] == '.') by {
                                assert(h@.take(4)[0] == 'w' && h@.take(4)[1] == 'w' && h@.take(4)[2]
                                    == 'w' && h@.take(4)[3] == '.');
                            }
                            assert(false);
                        }
                    }
                }
                Some(h)
            }
        },
        None => None,
    }
}

/// The markdown a page converts to, if any: a blank page, or one whose
/// conversion comes out blank, yields nothing.
pub open spec fn page_markdown(html: Seq<char>) -> Option<Seq<char>> {
    if is_blank(html) {
        None
    } else if is_blank(markdown_of(html)) {
        None
    } else {
        Some(markdown_of(html))
    }
}

/// Converts page markup to markdown for offline reading; blank input or
/// blank output yields nothing.
pub fn convert_html_to_md(html: &str) -> (r: Option<String>)
    ensures
        r.deep_view() == page_markdown(html@),
{
    if is_blank_exec(html) {
        return None;
    }
    let md = html_to_md(html);
    if is_blank_exec(md.as_str()) {
        None
    } else {
        Some(md)
    }
}

/// The title a saved page falls back to when nothing was fetched: the
/// user's own title, else the site name, else a fixed word.
pub open spec fn fallback_title_spec(user: Option<Seq<char>>, site: Option<Seq<char>>) -> Seq<
    char,
> {
    match user {
        Some(t) => t,
        None => match site {
            Some(s) => s,
            None => "Untitled"@,
        },
    }
}

/// Picks the title of a page saved without a fetch.
pub fn fallback_title(user: Option<String>, site: &Option<String>) -> (r: String)
    ensures
        r@ == fallback_title_spec(user.deep_view(), site.deep_view()),
{
    match user {
        Some(t) => t,
        None => match site {
            Some(s) => s.clone(),
            None => String::from_str("Untitled"),
        },
    }
}

} // verus!
