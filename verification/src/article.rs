//! The article entity, the raw stored row it maps to, and the mapping
//! between the two: tags are kept in one JSON-encoded column, timestamps
//! as integer seconds, and an unreadable stored timestamp is silently
//! repaired to the present moment when a row is read.

use vstd::prelude::*;

use crate::tagjson::{decode_tags_or_empty, encode_tags, encode_tags_spec, parse_tags_spec};

verus! {

/// Timestamps are kept within the range a calendar library can render:
/// roughly years -262143 through 262142.
pub const TS_MIN: i64 = -8334601315200;

pub const TS_MAX: i64 = 8210266876799;

/// Whether a stored timestamp is renderable as a date.
pub open spec fn ts_in_range(ts: i64) -> bool {
    TS_MIN <= ts && ts <= TS_MAX
}

/// What a caller supplies to save a page.
#[derive(Debug)]
pub struct NewArticle {
    pub hash: String,
    pub url: String,
    pub canonical_url: String,
    pub title: Option<String>,
    pub site: Option<String>,
    pub description: Option<String>,
    pub favicon_url: Option<String>,
    pub content_markdown: Option<String>,
    pub tags: Vec<String>,
}

pub ghost struct NewArticleV {
    pub hash: Seq<char>,
    pub url: Seq<char>,
    pub canonical_url: Seq<char>,
    pub title: Option<Seq<char>>,
    pub site: Option<Seq<char>>,
    pub description: Option<Seq<char>>,
    pub favicon_url: Option<Seq<char>>,
    pub content_markdown: Option<Seq<char>>,
    pub tags: Seq<Seq<char>>,
}

impl View for NewArticle {
    type V = NewArticleV;

    open spec fn view(&self) -> NewArticleV {
        NewArticleV {
            hash: self.hash@,
            url: self.url@,
            canonical_url: self.canonical_url@,
            title: self.title.deep_view(),
            site: self.site.deep_view(),
            description: self.description.deep_view(),
            favicon_url: self.favicon_url.deep_view(),
            content_markdown: self.content_markdown.deep_view(),
            tags: self.tags.deep_view(),
        }
    }
}

/// The persisted entity, as callers see it.
#[derive(Debug)]
pub struct Article {
    pub id: i64,
    pub hash: String,
    pub url: String,
    pub canonical_url: String,
    pub title: Option<String>,
    pub site: Option<String>,
    pub description: Option<String>,
    pub favicon_url: Option<String>,
    pub content_markdown: Option<String>,
    pub saved_at: i64,
    pub last_opened_at: Option<i64>,
    pub read: bool,
    pub archived: bool,
    pub starred: bool,
    pub note: Option<String>,
    pub tags: Vec<String>,
}

pub ghost struct ArticleV {
    pub id: i64,
    pub hash: Seq<char>,
    pub url: Seq<char>,
    pub canonical_url: Seq<char>,
    pub title: Option<Seq<char>>,
    pub site: Option<Seq<char>>,
    pub description: Option<Seq<char>>,
    pub favicon_url: Option<Seq<char>>,
    pub content_markdown: Option<Seq<char>>,
    pub saved_at: i64,
    pub last_opened_at: Option<i64>,
    pub read: bool,
    pub archived: bool,
    pub starred: bool,
    pub note: Option<Seq<char>>,
    pub tags: Seq<Seq<char>>,
}

impl View for Article {
    type V = ArticleV;

    open spec fn view(&self) -> ArticleV {
        ArticleV {
            id: self.id,
            hash: self.hash@,
            url: self.url@,
            canonical_url: self.canonical_url@,
            title: self.title.deep_view(),
            site: self.site.deep_view(),
            description: self.description.deep_view(),
            favicon_url: self.favicon_url.deep_view(),
            content_markdown: self.content_markdown.deep_view(),
            saved_at: self.saved_at,
            last_opened_at: self.last_opened_at,
            read: self.read,
            archived: self.archived,
            starred: self.starred,
            note: self.note.deep_view(),
            tags: self.tags.deep_view(),
        }
    }
}

/// One stored row, exactly as the table holds it: tags still encoded,
/// timestamps unrepaired.
#[derive(Debug)]
pub struct StoredRow {
    pub id: i64,
    pub hash: String,
    pub url: String,
    pub canonical_url: String,
    pub title: Option<String>,
    pub site: Option<String>,
    pub description: Option<String>,
    pub favicon_url: Option<String>,
    pub content_markdown: Option<String>,
    pub saved_at: i64,
    pub last_opened_at: Option<i64>,
    pub read: bool,
    pub archived: bool,
    pub starred: bool,
    pub note: Option<String>,
    pub tags_json: String,
}

pub ghost struct RowV {
    pub id: i64,
    pub hash: Seq<char>,
    pub url: Seq<char>,
    pub canonical_url: Seq<char>,
    pub title: Option<Seq<char>>,
    pub site: Option<Seq<char>>,
    pub description: Option<Seq<char>>,
    pub favicon_url: Option<Seq<char>>,
    pub content_markdown: Option<Seq<char>>,
    pub saved_at: i64,
    pub last_opened_at: Option<i64>,
    pub read: bool,
    pub archived: bool,
    pub starred: bool,
    pub note: Option<Seq<char>>,
    pub tags_json: Seq<char>,
}

impl View for StoredRow {
    type V = RowV;

    open spec fn view(&self) -> RowV {
        RowV {
            id: self.id,
            hash: self.hash@,
            url: self.url@,
            canonical_url: self.canonical_url@,
            title: self.title.deep_view(),
            site: self.site.deep_view(),
            description: self.description.deep_view(),
            favicon_url: self.favicon_url.deep_view(),
            content_markdown: self.content_markdown.deep_view(),
            saved_at: self.saved_at,
            last_opened_at: self.last_opened_at,
            read: self.read,
            archived: self.archived,
            starred: self.starred,
            note: self.note.deep_view(),
            tags_json: self.tags_json@,
        }
    }
}

/// The row a fresh article is stored as: flags clear, tags encoded,
/// saved at the given moment.
pub open spec fn new_row_spec(a: NewArticleV, id: i64, now: i64) -> RowV {
    RowV {
        id: id,
        hash: a.hash,
        url: a.url,
        canonical_url: a.canonical_url,
        title: a.title,
        site: a.site,
        description: a.description,
        favicon_url: a.favicon_url,
        content_markdown: a.content_markdown,
        saved_at: now,
        last_opened_at: None,
        read: false,
        archived: false,
        starred: false,
        note: None,
        tags_json: encode_tags_spec(a.tags),
    }
}

/// The tag list a stored column denotes; malformed text denotes none.
pub open spec fn tags_of_column(s: Seq<char>) -> Seq<Seq<char>> {
    match parse_tags_spec(s) {
        Some(l) => l,
        None => Seq::empty(),
    }
}

/// A stored timestamp, repaired to `now` when it is unreadable.
pub open spec fn repair_ts(ts: i64, now: i64) -> i64 {
    if ts_in_range(ts) {
        ts
    } else {
        now
    }
}

/// The entity a stored row denotes, read at the given moment.
pub open spec fn article_of_row(r: RowV, now: i64) -> ArticleV {
    ArticleV {
        id: r.id,
        hash: r.hash,
        url: r.url,
        canonical_url: r.canonical_url,
        title: r.title,
        site: r.site,
        description: r.description,
        favicon_url: r.favicon_url,
        content_markdown: r.content_markdown,
        saved_at: repair_ts(r.saved_at, now),
        last_opened_at: match r.last_opened_at {
            Some(ts) => if ts_in_range(ts) {
                Some(ts)
            } else {
                None
            },
            None => None,
        },
        read: r.read,
        archived: r.archived,
        starred: r.starred,
        note: r.note,
        tags: tags_of_column(r.tags_json),
    }
}

/// The views of a row vector, in order.
pub open spec fn views_of(rows: Seq<StoredRow>) -> Seq<RowV> {
    rows.map_values(|x: StoredRow| x@)
}

/// Copies an optional string.
pub fn clone_opt_string(o: &Option<String>) -> (r: Option<String>)
    ensures
        r.deep_view() == o.deep_view(),
{
    match o {
        Some(s) => Some(s.clone()),
        None => None,
    }
}

/// Copies a tag list.
pub fn clone_tags(v: &Vec<String>) -> (r: Vec<String>)
    ensures
        r.deep_view() == v.deep_view(),
{
    let mut r: Vec<String> = Vec::new();
    let mut i: usize = 0;
    proof {
        assert(r.deep_view() =~= v.deep_view().take(0));
    }
    while i < v.len()
        invariant
            i <= v@.len(),
            v.deep_view().len() == v@.len(),
            r.deep_view() == v.deep_view().take(i as int),
        decreases v@.len() - i,
    {
        let x = v[i].clone();
        proof {
            assert(v.deep_view()[i as int] == v@[i as int]@);
            assert(x@ == v.deep_view()[i as int]);
        }
        let ghost prev = r.deep_view();
        let ghost xv = x@;
        r.push(x);
        proof {
            assert(r.deep_view() =~= prev.push(xv));
            assert(prev.push(xv) =~= v.deep_view().take(i + 1));
        }
        i = i + 1;
    }
    proof {
        assert(v.deep_view().take(v@.len() as int) =~= v.deep_view());
    }
    r
}

/// Copies an article.
pub fn clone_article(a: &Article) -> (r: Article)
    ensures
        r@ == a@,
{
    Article {
        id: a.id,
        hash: a.hash.clone(),
        url: a.url.clone(),
        canonical_url: a.canonical_url.clone(),
        title: clone_opt_string(&a.title),
        site: clone_opt_string(&a.site),
        description: clone_opt_string(&a.description),
        favicon_url: clone_opt_string(&a.favicon_url),
        content_markdown: clone_opt_string(&a.content_markdown),
        saved_at: a.saved_at,
        last_opened_at: a.last_opened_at,
        read: a.read,
        archived: a.archived,
        starred: a.starred,
        note: clone_opt_string(&a.note),
        tags: clone_tags(&a.tags),
    }
}

/// Copies a stored row.
pub fn clone_row(r: &StoredRow) -> (out: StoredRow)
    ensures
        out@ == r@,
{
    StoredRow {
        id: r.id,
        hash: r.hash.clone(),
        url: r.url.clone(),
        canonical_url: r.canonical_url.clone(),
        title: clone_opt_string(&r.title),
        site: clone_opt_string(&r.site),
        description: clone_opt_string(&r.description),
        favicon_url: clone_opt_string(&r.favicon_url),
        content_markdown: clone_opt_string(&r.content_markdown),
        saved_at: r.saved_at,
        last_opened_at: r.last_opened_at,
        read: r.read,
        archived: r.archived,
        starred: r.starred,
        note: clone_opt_string(&r.note),
        tags_json: r.tags_json.clone(),
    }
}

/// Builds the row that stores a fresh article.
pub fn make_row(a: &NewArticle, id: i64, now: i64) -> (r: StoredRow)
    ensures
        r@ == new_row_spec(a@, id, now),
{
    StoredRow {
        id: id,
        hash: a.hash.clone(),
        url: a.url.clone(),
        canonical_url: a.canonical_url.clone(),
        title: clone_opt_string(&a.title),
        site: clone_opt_string(&a.site),
        description: clone_opt_string(&a.description),
        favicon_url: clone_opt_string(&a.favicon_url),
        content_markdown: clone_opt_string(&a.content_markdown),
        saved_at: now,
        last_opened_at: None,
        read: false,
        archived: false,
        starred: false,
        note: None,
        tags_json: encode_tags(&a.tags),
    }
}

/// Reads one stored row as an entity, repairing what cannot be read:
/// an out-of-range timestamp becomes `now`, a malformed tag column an
/// empty tag list.
pub fn row_to_article(r: &StoredRow, now: i64) -> (a: Article)
    ensures
        a@ == article_of_row(r@, now),
{
    let saved_at = if r.saved_at >= TS_MIN && r.saved_at <= TS_MAX {
        r.saved_at
    } else {
        now
    };
    let last_opened_at = match r.last_opened_at {
        Some(ts) => if ts >= TS_MIN && ts <= TS_MAX {
            Some(ts)
        } else {
            None
        },
        None => None,
    };
    Article {
        id: r.id,
        hash: r.hash.clone(),
        url: r.url.clone(),
        canonical_url: r.canonical_url.clone(),
        title: clone_opt_string(&r.title),
        site: clone_opt_string(&r.site),
        description: clone_opt_string(&r.description),
        favicon_url: clone_opt_string(&r.favicon_url),
        content_markdown: clone_opt_string(&r.content_markdown),
        saved_at: saved_at,
        last_opened_at: last_opened_at,
        read: r.read,
        archived: r.archived,
        starred: r.starred,
        note: clone_opt_string(&r.note),
        tags: decode_tags_or_empty(r.tags_json.as_str()),
    }
}

} // verus!
