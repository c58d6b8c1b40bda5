//! The operations on the article store: insertion under a unique
//! fingerprint, point lookups, filtered and sorted listings, batch flag
//! transitions, and collection-wide tag algebra. Every contract is
//! stated over `db_rows`, the model of the stored table.

use vstd::prelude::*;

use crate::article::{
    Article, ArticleV, NewArticle, StoredRow, RowV, article_of_row, clone_row, new_row_spec,
    row_to_article, views_of,
};
use crate::errors::StashError;
use crate::store::{
    contains_hash, db_rows, delete_row, ids_ascending, insert_row, load_all, max_row_id,
    next_row_id, now_ts, update_row,
};
use crate::strutil::string_eq;
use crate::tagjson::lemma_tags_round_trip;

verus! {

/// Whether an article is what reading the given row yields: every field
/// copied, tags decoded, and an unreadable saved time repaired to some
/// read-time moment.
pub open spec fn reads_as(r: RowV, a: ArticleV) -> bool {
    a == article_of_row(r, a.saved_at)
}

/// Reads every row as an article, at one shared moment.
fn rows_to_articles(rows: &Vec<StoredRow>, now: i64) -> (out: Vec<Article>)
    ensures
        out@.len() == rows@.len(),
        forall|i: int| 0 <= i < out@.len() ==> out@[i]@ == article_of_row(rows@[i]@, now),
        forall|i: int| 0 <= i < out@.len() ==> reads_as(#[trigger] rows@[i]@, out@[i]@),
{
    let mut out: Vec<Article> = Vec::new();
    let mut i: usize = 0;
    while i < rows.len()
        invariant
            i <= rows@.len(),
            out@.len() == i,
            forall|j: int| 0 <= j < i ==> out@[j]@ == article_of_row(rows@[j]@, now),
        decreases rows@.len() - i,
    {
        out.push(row_to_article(&rows[i], now));
        i = i + 1;
    }
    out
}

/// Saves a page at the given moment. The fingerprint must be new: on a
/// collision nothing changes and the collision is reported; otherwise
/// the row is stored under a fresh id — one past the largest in use,
/// and hence at the end of the id order, as long as that largest id is
/// below the integer maximum — and the stored article is returned,
/// flags clear, saved at `now`.
pub fn insert_article_at(conn: &mut rusqlite::Connection, article: NewArticle, now: i64) -> (r:
    Result<Article, StashError>)
    ensures
        match r {
            Ok(a) => {
                &&& !contains_hash(db_rows(*old(conn)), article.hash@)
                &&& forall|i: int|
                    0 <= i < db_rows(*old(conn)).len() ==> #[trigger] db_rows(*old(conn))[i].id
                        != a@.id
                &&& crate::store::inserted_somewhere(
                    db_rows(*old(conn)),
                    db_rows(*final(conn)),
                    new_row_spec(article@, a@.id, now),
                )
                &&& a@ == article_of_row(new_row_spec(article@, a@.id, now), now)
                &&& a@.saved_at == now
                &&& a@.tags == article@.tags
                &&& max_row_id(db_rows(*old(conn))) < i64::MAX ==> {
                    &&& db_rows(*final(conn)) == db_rows(*old(conn)).push(
                        new_row_spec(article@, a@.id, now),
                    )
                    &&& forall|i: int|
                        0 <= i < db_rows(*old(conn)).len() ==> db_rows(*old(conn))[i].id < a@.id
                    &&& a@.id == next_row_id(db_rows(*old(conn)))
                }
            },
            Err(e) => {
                &&& db_rows(*final(conn)) == db_rows(*old(conn))
                &&& match e {
                    StashError::ConstraintViolation { hash } => hash@ == article.hash@
                        && contains_hash(db_rows(*old(conn)), article.hash@),
                    StashError::StoreUnavailable { .. } => true,
                    _ => false,
                }
            },
        },
{
    let row = crate::article::make_row(&article, 0, now);
    match insert_row(conn, &row) {
        Ok(id) => {
            let ghost av = article@;
            proof {
                lemma_tags_round_trip(av.tags);
                assert(RowV { id: id, ..row@ } =~= new_row_spec(av, id, now));
            }
            let a = Article {
                id: id,
                hash: article.hash,
                url: article.url,
                canonical_url: article.canonical_url,
                title: article.title,
                site: article.site,
                description: article.description,
                favicon_url: article.favicon_url,
                content_markdown: article.content_markdown,
                saved_at: now,
                last_opened_at: None,
                read: false,
                archived: false,
                starred: false,
                note: None,
                tags: article.tags,
            };
            proof {
                assert(a@ =~= article_of_row(new_row_spec(av, id, now), now));
            }
            Ok(a)
        },
        Err(e) => Err(e),
    }
}

/// Saves a page now: as `insert_article_at`, at the present moment.
pub fn insert_article(conn: &mut rusqlite::Connection, article: NewArticle) -> (r: Result<
    Article,
    StashError,
>)
    ensures
        match r {
            Ok(a) => {
                &&& !contains_hash(db_rows(*old(conn)), article.hash@)
                &&& forall|i: int|
                    0 <= i < db_rows(*old(conn)).len() ==> #[trigger] db_rows(*old(conn))[i].id
                        != a@.id
                &&& crate::store::inserted_somewhere(
                    db_rows(*old(conn)),
                    db_rows(*final(conn)),
                    new_row_spec(article@, a@.id, a@.saved_at),
                )
                &&& a@ == article_of_row(new_row_spec(article@, a@.id, a@.saved_at), a@.saved_at)
                &&& a@.tags == article@.tags
                &&& max_row_id(db_rows(*old(conn))) < i64::MAX ==> {
                    &&& db_rows(*final(conn)) == db_rows(*old(conn)).push(
                        new_row_spec(article@, a@.id, a@.saved_at),
                    )
                    &&& forall|i: int|
                        0 <= i < db_rows(*old(conn)).len() ==> db_rows(*old(conn))[i].id < a@.id
                    &&& a@.id == next_row_id(db_rows(*old(conn)))
                }
            },
            Err(e) => {
                &&& db_rows(*final(conn)) == db_rows(*old(conn))
                &&& match e {
                    StashError::ConstraintViolation { hash } => hash@ == article.hash@
                        && contains_hash(db_rows(*old(conn)), article.hash@),
                    StashError::StoreUnavailable { .. } => true,
                    _ => false,
                }
            },
        },
{
    let now = now_ts();
    insert_article_at(conn, article, now)
}

/// Finds the article carrying this fingerprint, if one is stored.
pub fn find_by_hash(conn: &rusqlite::Connection, hash: &str) -> (r: Result<
    Option<Article>,
    StashError,
>)
    ensures
        match r {
            Ok(Some(a)) => exists|k: int|
                0 <= k < db_rows(*conn).len() && #[trigger] db_rows(*conn)[k].hash == hash@
                    && reads_as(db_rows(*conn)[k], a@),
            Ok(None) => !contains_hash(db_rows(*conn), hash@),
            Err(e) => e is StoreUnavailable,
        },
{
    let rows = match load_all(conn) {
        Ok(rows) => rows,
        Err(e) => {
            return Err(e);
        },
    };
    let target = String::from_str(hash);
    let mut i: usize = 0;
    while i < rows.len()
        invariant
            views_of(rows@) == db_rows(*conn),
            target@ == hash@,
            i <= rows@.len(),
            forall|j: int| 0 <= j < i ==> #[trigger] db_rows(*conn)[j].hash != hash@,
        decreases rows@.len() - i,
    {
        if string_eq(&rows[i].hash, &target) {
            let now = now_ts();
            let a = row_to_article(&rows[i], now);
            proof {
                assert(db_rows(*conn)[i as int] == rows@[i as int]@);
            }
            return Ok(Some(a));
        }
        proof {
            assert(db_rows(*conn)[i as int] == rows@[i as int]@);
        }
        i = i + 1;
    }
    Ok(None)
}

/// Finds the article stored under this id, if any.
pub fn get_article_by_id(conn: &rusqlite::Connection, id: i64) -> (r: Result<
    Option<Article>,
    StashError,
>)
    ensures
        match r {
            Ok(Some(a)) => a@.id == id && exists|k: int|
                0 <= k < db_rows(*conn).len() && #[trigger] db_rows(*conn)[k].id == id && reads_as(
                    db_rows(*conn)[k],
                    a@,
                ),
            Ok(None) => forall|k: int|
                0 <= k < db_rows(*conn).len() ==> #[trigger] db_rows(*conn)[k].id != id,
            Err(e) => e is StoreUnavailable,
        },
{
    let rows = match load_all(conn) {
        Ok(rows) => rows,
        Err(e) => {
            return Err(e);
        },
    };
    let mut i: usize = 0;
    while i < rows.len()
        invariant
            views_of(rows@) == db_rows(*conn),
            i <= rows@.len(),
            forall|j: int| 0 <= j < i ==> #[trigger] db_rows(*conn)[j].id != id,
        decreases rows@.len() - i,
    {
        proof {
            assert(db_rows(*conn)[i as int] == rows@[i as int]@);
        }
        if rows[i].id == id {
            let now = now_ts();
            let a = row_to_article(&rows[i], now);
            return Ok(Some(a));
        }
        i = i + 1;
    }
    Ok(None)
}

/// The rows whose id stands in the list, keeping the table's id order.
pub open spec fn rows_with_ids(rows: Seq<RowV>, ids: Seq<i64>) -> Seq<RowV> {
    rows.filter(|r: RowV| ids.contains(r.id))
}

/// Whether the list holds the id.
pub fn contains_id(ids: &Vec<i64>, id: i64) -> (r: bool)
    ensures
        r == ids@.contains(id),
{
    let mut i: usize = 0;
    while i < ids.len()
        invariant
            i <= ids@.len(),
            forall|j: int| 0 <= j < i ==> ids@[j] != id,
        decreases ids@.len() - i,
    {
        if ids[i] == id {
            return true;
        }
        i = i + 1;
    }
    false
}

/// Fetches the articles stored under the given ids, in ascending id
/// order; ids that match nothing are silently absent from the result,
/// and an empty id list reads nothing at all.
pub fn find_by_ids(conn: &rusqlite::Connection, ids: &Vec<i64>) -> (r: Result<
    Vec<Article>,
    StashError,
>)
    ensures
        match r {
            Ok(v) => {
                &&& v@.len() == rows_with_ids(db_rows(*conn), ids@).len()
                &&& forall|i: int|
                    0 <= i < v@.len() ==> reads_as(
                        #[trigger] rows_with_ids(db_rows(*conn), ids@)[i],
                        v@[i]@,
                    )
            },
            Err(e) => e is StoreUnavailable,
        },
{
    if ids.len() == 0 {
        let out: Vec<Article> = Vec::new();
        proof {
            assert forall|r: RowV| !ids@.contains(r.id) by {}
            lemma_filter_none(db_rows(*conn), ids@);
        }
        return Ok(out);
    }
    let rows = match load_all(conn) {
        Ok(rows) => rows,
        Err(e) => {
            return Err(e);
        },
    };
    let mut picked: Vec<StoredRow> = Vec::new();
    let mut i: usize = 0;
    proof {
        assert(views_of(picked@) =~= Seq::<RowV>::empty());
        assert(rows_with_ids(views_of(rows@).take(0), ids@) =~= Seq::<RowV>::empty());
    }
    while i < rows.len()
        invariant
            views_of(rows@) == db_rows(*conn),
            i <= rows@.len(),
            views_of(picked@) == rows_with_ids(views_of(rows@).take(i as int), ids@),
        decreases rows@.len() - i,
    {
        proof {
            reveal_with_fuel(Seq::filter, 2);
            assert(views_of(rows@).take(i + 1).drop_last() =~= views_of(rows@).take(i as int));
            assert(views_of(rows@).take(i + 1).last() == rows@[i as int]@);
        }
        if contains_id(ids, rows[i].id) {
            let ghost before = views_of(picked@);
            picked.push(clone_row(&rows[i]));
            proof {
                assert(views_of(picked@) =~= before.push(rows@[i as int]@));
            }
        }
        i = i + 1;
    }
    proof {
        assert(views_of(rows@).take(rows@.len() as int) =~= views_of(rows@));
    }
    let now = now_ts();
    let out = rows_to_articles(&picked, now);
    proof {
        assert forall|i: int| 0 <= i < out@.len() implies reads_as(
            #[trigger] rows_with_ids(db_rows(*conn), ids@)[i],
            out@[i]@,
        ) by {
            assert(views_of(picked@)[i] == picked@[i]@);
        }
    }
    Ok(out)
}

/// The rows a listing admits, in table order.
pub open spec fn matching_rows(
    rows: Seq<RowV>,
    all: bool,
    archived: bool,
    starred: bool,
    required: Seq<Seq<char>>,
) -> Seq<RowV> {
    rows.filter(|r: RowV| crate::listing::row_matches(r, all, archived, starred, required))
}

/// How many rows a limit lets through: all of them when it is negative
/// or ample, else exactly the limit.
pub open spec fn limit_clamp(limit: i64, n: int) -> int {
    if limit < 0 || limit > n {
        n
    } else {
        limit as int
    }
}

/// The views of an article vector, in order.
pub open spec fn article_views(s: Seq<Article>) -> Seq<ArticleV> {
    s.map_values(|a: Article| a@)
}

/// How a listing's output arises from the table through one witness
/// arrangement: the admitted rows in the listing's order, cut to the
/// limit, each read as an article.
pub open spec fn listed_via(
    sorted: Seq<RowV>,
    rows: Seq<RowV>,
    all: bool,
    archived: bool,
    starred: bool,
    required: Seq<Seq<char>>,
    ord: crate::listing::RowOrder,
    limit: i64,
    out: Seq<ArticleV>,
) -> bool {
    &&& sorted.to_multiset() == matching_rows(rows, all, archived, starred, required).to_multiset()
    &&& crate::listing::rows_sorted(sorted, ord)
    &&& out.len() == limit_clamp(limit, sorted.len() as int)
    &&& forall|i: int| 0 <= i < out.len() ==> reads_as(#[trigger] sorted[i], out[i])
}

/// What every listing returns: exactly the admitted rows, ordered as
/// asked, cut to the limit.
pub open spec fn listing_post(
    rows: Seq<RowV>,
    all: bool,
    archived: bool,
    starred: bool,
    required: Seq<Seq<char>>,
    ord: crate::listing::RowOrder,
    limit: i64,
    out: Seq<ArticleV>,
) -> bool {
    exists|sorted: Seq<RowV>|
        listed_via(sorted, rows, all, archived, starred, required, ord, limit, out)
}

/// Keeps the rows a listing admits.
fn filter_matching(
    rows: &Vec<StoredRow>,
    all: bool,
    archived: bool,
    starred: bool,
    required: &Vec<String>,
) -> (out: Vec<StoredRow>)
    ensures
        views_of(out@) == matching_rows(
            views_of(rows@),
            all,
            archived,
            starred,
            required.deep_view(),
        ),
{
    let mut out: Vec<StoredRow> = Vec::new();
    let mut i: usize = 0;
    proof {
        assert(views_of(out@) =~= Seq::<RowV>::empty());
        assert(matching_rows(views_of(rows@).take(0), all, archived, starred, required.deep_view())
            =~= Seq::<RowV>::empty());
    }
    while i < rows.len()
        invariant
            i <= rows@.len(),
            views_of(out@) == matching_rows(
                views_of(rows@).take(i as int),
                all,
                archived,
                starred,
                required.deep_view(),
            ),
        decreases rows@.len() - i,
    {
        proof {
            reveal_with_fuel(Seq::filter, 2);
            assert(views_of(rows@).take(i + 1).drop_last() =~= views_of(rows@).take(i as int));
            assert(views_of(rows@).take(i + 1).last() == rows@[i as int]@);
        }
        if crate::listing::row_matches_exec(&rows[i], all, archived, starred, required) {
            let ghost before = views_of(out@);
            out.push(clone_row(&rows[i]));
            proof {
                assert(views_of(out@) =~= before.push(rows@[i as int]@));
            }
        }
        i = i + 1;
    }
    proof {
        assert(views_of(rows@).take(rows@.len() as int) =~= views_of(rows@));
    }
    out
}

/// Cuts a listing to its limit; a negative limit means no limit.
fn take_limit(v: Vec<StoredRow>, limit: i64) -> (out: Vec<StoredRow>)
    ensures
        out@ == v@.take(limit_clamp(limit, v@.len() as int)),
{
    if limit >= 0 && (limit as u64) < (v.len() as u64) {
        let mut v = v;
        v.truncate(limit as usize);
        proof {
            assert(v@ =~= v@.subrange(0, limit as int));
        }
        v
    } else {
        proof {
            assert(v@.take(v@.len() as int) =~= v@);
        }
        v
    }
}

/// Lists articles for display: unread and unarchived ones unless all are
/// asked for, starred rows first, most recently saved first.
pub fn list_articles(conn: &rusqlite::Connection, limit: i64, all: bool) -> (r: Result<
    Vec<Article>,
    StashError,
>)
    ensures
        match r {
            Ok(v) => listing_post(
                db_rows(*conn),
                all,
                false,
                false,
                Seq::<Seq<char>>::empty(),
                crate::listing::RowOrder::StarredThenTime,
                limit,
                article_views(v@),
            ),
            Err(e) => e is StoreUnavailable,
        },
{
    let rows = match load_all(conn) {
        Ok(rows) => rows,
        Err(e) => {
            return Err(e);
        },
    };
    let none: Vec<String> = Vec::new();
    proof {
        assert(none.deep_view() =~= Seq::<Seq<char>>::empty());
    }
    let filtered = filter_matching(&rows, all, false, false, &none);
    let ord = crate::listing::RowOrder::StarredThenTime;
    let sorted = crate::listing::sort_rows(filtered, &ord);
    let ghost sorted_v = views_of(sorted@);
    let limited = take_limit(sorted, limit);
    let now = now_ts();
    let out = rows_to_articles(&limited, now);
    proof {
        assert forall|i: int| 0 <= i < article_views(out@).len() implies reads_as(
            #[trigger] sorted_v[i],
            article_views(out@)[i],
        ) by {
            assert(limited@[i]@ == sorted_v[i]);
            assert(article_views(out@)[i] == out@[i]@);
        }
        assert(listed_via(
            sorted_v,
            db_rows(*conn),
            all,
            false,
            false,
            Seq::<Seq<char>>::empty(),
            ord,
            limit,
            article_views(out@),
        ));
    }
    Ok(out)
}

/// The order a sort-field name and reverse flag ask for: text fields
/// ascend by default, everything else descends, and the flag flips the
/// effective direction. An unknown name sorts by saved time.
pub open spec fn effective_order(s: Seq<char>, reverse: bool) -> crate::listing::RowOrder {
    let field = match crate::listing::spec_sort_field(s) {
        Some(f) => f,
        None => crate::listing::SortField::Time,
    };
    let asc0 = field is Title || field is Site;
    crate::listing::RowOrder::ByField { field: field, asc: asc0 != reverse }
}

/// Lists articles under the full set of toggles: scope, required tags,
/// a sort field with its effective direction, and a limit.
pub fn list_articles_filtered(
    conn: &rusqlite::Connection,
    limit: i64,
    all: bool,
    archived: bool,
    starred: bool,
    tags: &Vec<String>,
    sort_field: &str,
    reverse: bool,
) -> (r: Result<Vec<Article>, StashError>)
    ensures
        match r {
            Ok(v) => listing_post(
                db_rows(*conn),
                all,
                archived,
                starred,
                tags.deep_view(),
                effective_order(sort_field@, reverse),
                limit,
                article_views(v@),
            ),
            Err(e) => e is StoreUnavailable,
        },
{
    let rows = match load_all(conn) {
        Ok(rows) => rows,
        Err(e) => {
            return Err(e);
        },
    };
    let field = match crate::listing::parse_sort_field(sort_field) {
        Some(f) => f,
        None => crate::listing::SortField::Time,
    };
    let asc0 = match field {
        crate::listing::SortField::Title => true,
        crate::listing::SortField::Site => true,
        _ => false,
    };
    let ord = crate::listing::RowOrder::ByField { field: field, asc: asc0 != reverse };
    proof {
        assert(ord == effective_order(sort_field@, reverse));
    }
    let filtered = filter_matching(&rows, all, archived, starred, tags);
    let sorted = crate::listing::sort_rows(filtered, &ord);
    let ghost sorted_v = views_of(sorted@);
    let limited = take_limit(sorted, limit);
    let now = now_ts();
    let out = rows_to_articles(&limited, now);
    proof {
        assert forall|i: int| 0 <= i < article_views(out@).len() implies reads_as(
            #[trigger] sorted_v[i],
            article_views(out@)[i],
        ) by {
            assert(limited@[i]@ == sorted_v[i]);
            assert(article_views(out@)[i] == out@[i]@);
        }
        assert(listed_via(
            sorted_v,
            db_rows(*conn),
            all,
            archived,
            starred,
            tags.deep_view(),
            ord,
            limit,
            article_views(out@),
        ));
    }
    Ok(out)
}

/// Lists the archived articles, starred rows first, most recently saved
/// first.
pub fn list_archived_articles(conn: &rusqlite::Connection, limit: i64) -> (r: Result<
    Vec<Article>,
    StashError,
>)
    ensures
        match r {
            Ok(v) => listing_post(
                db_rows(*conn),
                true,
                true,
                false,
                Seq::<Seq<char>>::empty(),
                crate::listing::RowOrder::StarredThenTime,
                limit,
                article_views(v@),
            ),
            Err(e) => e is StoreUnavailable,
        },
{
    let rows = match load_all(conn) {
        Ok(rows) => rows,
        Err(e) => {
            return Err(e);
        },
    };
    let none: Vec<String> = Vec::new();
    proof {
        assert(none.deep_view() =~= Seq::<Seq<char>>::empty());
    }
    let filtered = filter_matching(&rows, true, true, false, &none);
    let ord = crate::listing::RowOrder::StarredThenTime;
    let sorted = crate::listing::sort_rows(filtered, &ord);
    let ghost sorted_v = views_of(sorted@);
    let limited = take_limit(sorted, limit);
    let now = now_ts();
    let out = rows_to_articles(&limited, now);
    proof {
        assert forall|i: int| 0 <= i < article_views(out@).len() implies reads_as(
            #[trigger] sorted_v[i],
            article_views(out@)[i],
        ) by {
            assert(limited@[i]@ == sorted_v[i]);
            assert(article_views(out@)[i] == out@[i]@);
        }
        assert(listed_via(
            sorted_v,
            db_rows(*conn),
            true,
            true,
            false,
            Seq::<Seq<char>>::empty(),
            ord,
            limit,
            article_views(out@),
        ));
    }
    Ok(out)
}

/// Draws up to `count` distinct articles from the scope, without
/// replacement, steered by a seed from the engine's random generator:
/// each returned article reads a distinct admitted row; which ones come
/// back is not specified.
pub fn get_random_articles(conn: &rusqlite::Connection, count: i64, all: bool) -> (r: Result<
    Vec<Article>,
    StashError,
>)
    ensures
        match r {
            Ok(v) => sample_post(db_rows(*conn), all, count, article_views(v@)),
            Err(e) => e is StoreUnavailable,
        },
{
    let rows = match load_all(conn) {
        Ok(rows) => rows,
        Err(e) => {
            return Err(e);
        },
    };
    let none: Vec<String> = Vec::new();
    proof {
        assert(none.deep_view() =~= Seq::<Seq<char>>::empty());
    }
    let filtered = filter_matching(&rows, all, false, false, &none);
    let ghost m = views_of(filtered@);
    let n = filtered.len();
    if n == 0 || count == 0 {
        let out: Vec<Article> = Vec::new();
        proof {
            let pick = Seq::<int>::empty();
            assert(article_views(out@) =~= Seq::<ArticleV>::empty());
            assert(sample_via(
                pick,
                matching_rows(db_rows(*conn), all, false, false, Seq::<Seq<char>>::empty()),
                count,
                article_views(out@),
            ));
            assert(sample_post(db_rows(*conn), all, count, article_views(out@)));
        }
        return Ok(out);
    }
    let k: usize = if count < 0 || (count as u64) >= (n as u64) {
        n
    } else {
        count as usize
    };
    // draw a seed from the engine's generator; the clock stands in when
    // the draw fails
    let seed: i64 = match crate::store::random_seed(conn) {
        Some(s) => s,
        None => now_ts(),
    };
    let mut state: u64 = #[verifier::truncate] (seed as u64);
    // the positions still available to draw from
    let mut pool: Vec<usize> = Vec::new();
    let mut t: usize = 0;
    while t < n
        invariant
            t <= n,
            pool@.len() == t,
            forall|a: int| 0 <= a < t ==> #[trigger] pool@[a] == a,
        decreases n - t,
    {
        pool.push(t);
        t = t + 1;
    }
    let mut picked: Vec<StoredRow> = Vec::new();
    let ghost mut pick = Seq::<int>::empty();
    while picked.len() < k
        invariant
            n == filtered@.len(),
            m == views_of(filtered@),
            k <= n,
            picked@.len() <= k,
            pool@.len() + picked@.len() == n,
            forall|a: int, b: int| 0 <= a < b < pool@.len() ==> pool@[a] != pool@[b],
            forall|a: int| 0 <= a < pool@.len() ==> #[trigger] pool@[a] < n,
            pick.len() == picked@.len(),
            forall|a: int, b: int| 0 <= a < b < pick.len() ==> pick[a] != pick[b],
            forall|a: int|
                0 <= a < pick.len() ==> 0 <= #[trigger] pick[a] < m.len() && picked@[a]@
                    == m[pick[a]],
            forall|a: int, b: int|
                0 <= a < pick.len() && 0 <= b < pool@.len() ==> #[trigger] pick[a]
                    != #[trigger] pool@[b],
        decreases k - picked@.len(),
    {
        state = #[verifier::truncate] (((state as u128) * 6364136223846793005u128
            + 1442695040888963407u128) as u64);
        let j: usize = (state % (pool.len() as u64)) as usize;
        let ghost before = pool@;
        let idx = pool.swap_remove(j);
        proof {
            // the drawn position leaves the pool; every survivor was there
            assert(idx == before[j as int]);
            assert forall|a: int, b: int| 0 <= a < b < pool@.len() implies pool@[a] != pool@[b] by {
                assert(pool@[a] == if a == j { before.last() } else { before[a] });
                assert(pool@[b] == if b == j { before.last() } else { before[b] });
            }
            assert forall|a: int| 0 <= a < pool@.len() implies #[trigger] pool@[a] < n && pool@[a]
                != idx by {
                assert(pool@[a] == if a == j { before.last() } else { before[a] });
            }
            assert(m[idx as int] == filtered@[idx as int]@);
        }
        picked.push(clone_row(&filtered[idx]));
        proof {
            pick = pick.push(idx as int);
        }
    }
    let now = now_ts();
    let out = rows_to_articles(&picked, now);
    proof {
        assert forall|a: int| 0 <= a < article_views(out@).len() implies 0 <= #[trigger] pick[a]
            < m.len() && reads_as(m[pick[a]], article_views(out@)[a]) by {
            assert(article_views(out@)[a] == out@[a]@);
            assert(picked@[a]@ == m[pick[a]]);
        }
        assert(article_views(out@).len() == limit_clamp(count, m.len() as int));
        assert(sample_via(
            pick,
            matching_rows(db_rows(*conn), all, false, false, Seq::<Seq<char>>::empty()),
            count,
            article_views(out@),
        ));
        assert(sample_post(db_rows(*conn), all, count, article_views(out@)));
    }
    Ok(out)
}

/// One flag transition applied to a set of rows.
pub enum FlagOp {
    /// Set or clear the read mark.
    Read(bool),
    /// Set or clear the star.
    Starred(bool),
    /// Archive, or restore: restoring also clears the read mark, so a
    /// restored article returns to the unread inbox.
    Archived(bool),
}

/// The row a flag transition leaves behind.
pub open spec fn apply_flag(r: RowV, op: FlagOp) -> RowV {
    match op {
        FlagOp::Read(v) => RowV { read: v, ..r },
        FlagOp::Starred(v) => RowV { starred: v, ..r },
        FlagOp::Archived(v) => if v {
            RowV { archived: true, ..r }
        } else {
            RowV { archived: false, read: false, ..r }
        },
    }
}

/// The table after one flag transition over an id set: targeted rows
/// rewritten in place, the rest untouched.
pub open spec fn flag_applied(rows: Seq<RowV>, ids: Seq<i64>, op: FlagOp) -> Seq<RowV> {
    rows.map_values(
        |r: RowV|
            if ids.contains(r.id) {
                apply_flag(r, op)
            } else {
                r
            },
    )
}

fn apply_flag_exec(r: StoredRow, op: &FlagOp) -> (out: StoredRow)
    ensures
        out@ == apply_flag(r@, *op),
{
    let mut out = r;
    match op {
        FlagOp::Read(v) => {
            out.read = *v;
        },
        FlagOp::Starred(v) => {
            out.starred = *v;
        },
        FlagOp::Archived(v) => {
            if *v {
                out.archived = true;
            } else {
                out.archived = false;
                out.read = false;
            }
        },
    }
    out
}

/// The table after the flag transition has reached the first `upto`
/// rows: targeted rows before that point rewritten, everything from it
/// on untouched.
pub open spec fn flag_applied_prefix(
    rows: Seq<RowV>,
    ids: Seq<i64>,
    op: FlagOp,
    upto: int,
) -> Seq<RowV> {
    Seq::new(
        rows.len(),
        |j: int|
            if j < upto && ids.contains(rows[j].id) {
                apply_flag(rows[j], op)
            } else {
                rows[j]
            },
    )
}

/// What a storage failure mid-transition can leave behind: the rows are
/// rewritten up to some point and untouched from there on — never
/// anything else. The engine applies each row's rewrite whole, so the
/// boundary falls between rows.
pub open spec fn flag_interrupted(
    old_rows: Seq<RowV>,
    new_rows: Seq<RowV>,
    ids: Seq<i64>,
    op: FlagOp,
) -> bool {
    exists|upto: int|
        0 <= upto <= old_rows.len() && new_rows == flag_applied_prefix(old_rows, ids, op, upto)
}

/// Applies one flag transition to every stored row whose id is listed,
/// and counts the rows that were there to touch. An empty id list writes
/// nothing and counts zero.
pub fn update_flags_by_ids(conn: &mut rusqlite::Connection, ids: &Vec<i64>, op: FlagOp) -> (res:
    Result<usize, StashError>)
    ensures
        match res {
            Ok(n) => {
                &&& db_rows(*final(conn)) == flag_applied(db_rows(*old(conn)), ids@, op)
                &&& n == rows_with_ids(db_rows(*old(conn)), ids@).len()
            },
            Err(e) => e is StoreUnavailable && flag_interrupted(
                db_rows(*old(conn)),
                db_rows(*final(conn)),
                ids@,
                op,
            ),
        },
        ids@.len() == 0 ==> res == Result::<usize, StashError>::Ok(0usize) && db_rows(*final(conn))
            == db_rows(*old(conn)),
{
    if ids.len() == 0 {
        proof {
            assert(flag_applied(db_rows(*conn), ids@, op) =~= db_rows(*conn));
            assert(rows_with_ids(db_rows(*conn), ids@) =~= Seq::<RowV>::empty()) by {
                reveal_with_fuel(Seq::filter, 1);
                assert forall|r: RowV| !ids@.contains(r.id) by {}
                lemma_filter_none(db_rows(*conn), ids@);
            }
        }
        return Ok(0);
    }
    let rows = match load_all(conn) {
        Ok(rows) => rows,
        Err(e) => {
            proof {
                assert(db_rows(*conn) =~= flag_applied_prefix(db_rows(*conn), ids@, op, 0));
                assert(flag_interrupted(db_rows(*old(conn)), db_rows(*conn), ids@, op));
            }
            return Err(e);
        },
    };
    let ghost orig = views_of(rows@);
    let mut cnt: usize = 0;
    let mut i: usize = 0;
    proof {
        assert(db_rows(*conn) =~= flag_applied_prefix(orig, ids@, op, 0));
        assert(rows_with_ids(orig.take(0), ids@) =~= Seq::<RowV>::empty());
    }
    while i < rows.len()
        invariant
            orig == views_of(rows@),
            orig.len() == rows@.len(),
            orig == db_rows(*old(conn)),
            ids_ascending(orig),
            i <= rows@.len(),
            cnt == rows_with_ids(orig.take(i as int), ids@).len(),
            cnt <= i,
            db_rows(*conn) == flag_applied_prefix(orig, ids@, op, i as int),
        decreases rows@.len() - i,
    {
        proof {
            reveal_with_fuel(Seq::filter, 2);
            assert(orig.take(i + 1).drop_last() =~= orig.take(i as int));
            assert(orig.take(i + 1).last() == orig[i as int]);
        }
        if contains_id(ids, rows[i].id) {
            let ghost cur = db_rows(*conn);
            let newr = apply_flag_exec(clone_row(&rows[i]), &op);
            proof {
                assert(newr@ == apply_flag(orig[i as int], op));
                assert(newr@.id == orig[i as int].id);
                assert(cur[i as int].id == orig[i as int].id);
            }
            match update_row(conn, &newr) {
                Ok(true) => {
                    proof {
                        let k = choose|k: int|
                            0 <= k < cur.len() && cur[k].id == newr@.id && db_rows(*conn)
                                == cur.update(k, newr@);
                        assert(cur[k].id == orig[k].id);
                        if k != i as int {
                            assert(orig[k].id != orig[i as int].id);
                            assert(false);
                        }
                        assert(db_rows(*conn) =~= flag_applied_prefix(orig, ids@, op, i + 1));
                    }
                    cnt = cnt + 1;
                },
                Ok(false) => {
                    proof {
                        assert(cur[i as int].id == newr@.id);
                        assert(false);
                    }
                },
                Err(e) => {
                    proof {
                        assert(flag_interrupted(db_rows(*old(conn)), db_rows(*conn), ids@, op));
                    }
                    return Err(e);
                },
            }
        } else {
            proof {
                assert(db_rows(*conn) =~= flag_applied_prefix(orig, ids@, op, i + 1));
            }
        }
        i = i + 1;
    }
    proof {
        assert(orig.take(orig.len() as int) =~= orig);
        assert(db_rows(*conn) =~= flag_applied(orig, ids@, op));
    }
    Ok(cnt)
}

/// A filter admitting nothing keeps nothing.
proof fn lemma_filter_none(rows: Seq<RowV>, ids: Seq<i64>)
    requires
        forall|r: RowV| !ids.contains(r.id),
    ensures
        rows_with_ids(rows, ids) == Seq::<RowV>::empty(),
    decreases rows.len(),
{
    reveal_with_fuel(Seq::filter, 2);
    if rows.len() > 0 {
        lemma_filter_none(rows.drop_last(), ids);
        assert(rows_with_ids(rows, ids) =~= Seq::<RowV>::empty());
    } else {
        assert(rows_with_ids(rows, ids) =~= Seq::<RowV>::empty());
    }
}

/// What a flag mutation returns: after the transition, the rows under
/// the targeted ids read back as articles, in ascending id order; when
/// no targeted row existed, nothing comes back.
pub open spec fn mutate_fetch_post(
    old_rows: Seq<RowV>,
    ids: Seq<i64>,
    op: FlagOp,
    out: Seq<ArticleV>,
) -> bool {
    let new_rows = flag_applied(old_rows, ids, op);
    if rows_with_ids(old_rows, ids).len() == 0 {
        out.len() == 0
    } else {
        out.len() == rows_with_ids(new_rows, ids).len() && forall|i: int|
            0 <= i < out.len() ==> reads_as(#[trigger] rows_with_ids(new_rows, ids)[i], out[i])
    }
}

/// Applies one flag transition across an id set and returns the rows it
/// touched, post-mutation, for display. An empty id list returns empty
/// and writes nothing.
pub fn set_flag(conn: &mut rusqlite::Connection, ids: &Vec<i64>, op: FlagOp) -> (r: Result<
    Vec<Article>,
    StashError,
>)
    ensures
        match r {
            Ok(v) => {
                &&& db_rows(*final(conn)) == flag_applied(db_rows(*old(conn)), ids@, op)
                &&& mutate_fetch_post(db_rows(*old(conn)), ids@, op, article_views(v@))
            },
            Err(e) => e is StoreUnavailable && flag_interrupted(
                db_rows(*old(conn)),
                db_rows(*final(conn)),
                ids@,
                op,
            ),
        },
        ids@.len() == 0 ==> r is Ok && db_rows(*final(conn)) == db_rows(*old(conn)) && (r matches
        Result::Ok(v) ==> v@.len() == 0),
{
    let n = match update_flags_by_ids(conn, ids, op) {
        Ok(n) => n,
        Err(e) => {
            return Err(e);
        },
    };
    proof {
        // a failed re-fetch leaves the fully applied table, which is an
        // interrupted state whose boundary lies past every row
        assert(flag_applied(db_rows(*old(conn)), ids@, op) =~= flag_applied_prefix(
            db_rows(*old(conn)),
            ids@,
            op,
            db_rows(*old(conn)).len() as int,
        ));
        assert(flag_interrupted(db_rows(*old(conn)), db_rows(*conn), ids@, op));
    }
    if n == 0 {
        let out: Vec<Article> = Vec::new();
        proof {
            assert(article_views(out@) =~= Seq::<ArticleV>::empty());
        }
        Ok(out)
    } else {
        match find_by_ids(conn, ids) {
            Ok(v) => {
                proof {
                    assert(article_views(v@).len() == v@.len());
                    assert forall|i: int| 0 <= i < article_views(v@).len() implies reads_as(
                        #[trigger] rows_with_ids(db_rows(*final(conn)), ids@)[i],
                        article_views(v@)[i],
                    ) by {
                        assert(article_views(v@)[i] == v@[i]@);
                    }
                }
                Ok(v)
            },
            Err(e) => Err(e),
        }
    }
}

/// Sets or clears the read mark across an id set, returning the rows
/// touched.
pub fn set_read_by_ids(conn: &mut rusqlite::Connection, ids: &Vec<i64>, read: bool) -> (r: Result<
    Vec<Article>,
    StashError,
>)
    ensures
        match r {
            Ok(v) => {
                &&& db_rows(*final(conn)) == flag_applied(
                    db_rows(*old(conn)),
                    ids@,
                    FlagOp::Read(read),
                )
                &&& mutate_fetch_post(db_rows(*old(conn)), ids@, FlagOp::Read(read), article_views(v@))
            },
            Err(e) => e is StoreUnavailable && flag_interrupted(
                db_rows(*old(conn)),
                db_rows(*final(conn)),
                ids@,
                FlagOp::Read(read),
            ),
        },
        ids@.len() == 0 ==> r is Ok && db_rows(*final(conn)) == db_rows(*old(conn)) && (r matches
        Result::Ok(v) ==> v@.len() == 0),
{
    set_flag(conn, ids, FlagOp::Read(read))
}

/// Marks the listed rows read, returning them.
pub fn mark_read_by_ids(conn: &mut rusqlite::Connection, ids: &Vec<i64>) -> (r: Result<
    Vec<Article>,
    StashError,
>)
    ensures
        match r {
            Ok(v) => {
                &&& db_rows(*final(conn)) == flag_applied(
                    db_rows(*old(conn)),
                    ids@,
                    FlagOp::Read(true),
                )
                &&& mutate_fetch_post(
                    db_rows(*old(conn)),
                    ids@,
                    FlagOp::Read(true),
                    article_views(v@),
                )
            },
            Err(e) => e is StoreUnavailable && flag_interrupted(
                db_rows(*old(conn)),
                db_rows(*final(conn)),
                ids@,
                FlagOp::Read(true),
            ),
        },
        ids@.len() == 0 ==> r is Ok && db_rows(*final(conn)) == db_rows(*old(conn)) && (r matches
        Result::Ok(v) ==> v@.len() == 0),
{
    set_flag(conn, ids, FlagOp::Read(true))
}

/// Sets or clears the star across an id set, returning the rows touched.
pub fn set_starred_by_ids(conn: &mut rusqlite::Connection, ids: &Vec<i64>, starred: bool) -> (r:
    Result<Vec<Article>, StashError>)
    ensures
        match r {
            Ok(v) => {
                &&& db_rows(*final(conn)) == flag_applied(
                    db_rows(*old(conn)),
                    ids@,
                    FlagOp::Starred(starred),
                )
                &&& mutate_fetch_post(
                    db_rows(*old(conn)),
                    ids@,
                    FlagOp::Starred(starred),
                    article_views(v@),
                )
            },
            Err(e) => e is StoreUnavailable && flag_interrupted(
                db_rows(*old(conn)),
                db_rows(*final(conn)),
                ids@,
                FlagOp::Starred(starred),
            ),
        },
        ids@.len() == 0 ==> r is Ok && db_rows(*final(conn)) == db_rows(*old(conn)) && (r matches
        Result::Ok(v) ==> v@.len() == 0),
{
    set_flag(conn, ids, FlagOp::Starred(starred))
}

/// Archives the listed rows, counting those that were there.
pub fn archive_by_ids(conn: &mut rusqlite::Connection, ids: &Vec<i64>) -> (res: Result<
    usize,
    StashError,
>)
    ensures
        match res {
            Ok(n) => {
                &&& db_rows(*final(conn)) == flag_applied(
                    db_rows(*old(conn)),
                    ids@,
                    FlagOp::Archived(true),
                )
                &&& n == rows_with_ids(db_rows(*old(conn)), ids@).len()
            },
            Err(e) => e is StoreUnavailable && flag_interrupted(
                db_rows(*old(conn)),
                db_rows(*final(conn)),
                ids@,
                FlagOp::Archived(true),
            ),
        },
        ids@.len() == 0 ==> res == Result::<usize, StashError>::Ok(0usize) && db_rows(*final(conn))
            == db_rows(*old(conn)),
{
    update_flags_by_ids(conn, ids, FlagOp::Archived(true))
}

/// Restores the listed rows from the archive: clears both the archived
/// and the read mark, so they return to the unread inbox. Counts the
/// rows that were there.
pub fn unarchive_by_ids(conn: &mut rusqlite::Connection, ids: &Vec<i64>) -> (res: Result<
    usize,
    StashError,
>)
    ensures
        match res {
            Ok(n) => {
                &&& db_rows(*final(conn)) == flag_applied(
                    db_rows(*old(conn)),
                    ids@,
                    FlagOp::Archived(false),
                )
                &&& n == rows_with_ids(db_rows(*old(conn)), ids@).len()
            },
            Err(e) => e is StoreUnavailable && flag_interrupted(
                db_rows(*old(conn)),
                db_rows(*final(conn)),
                ids@,
                FlagOp::Archived(false),
            ),
        },
        ids@.len() == 0 ==> res == Result::<usize, StashError>::Ok(0usize) && db_rows(*final(conn))
            == db_rows(*old(conn)),
{
    update_flags_by_ids(conn, ids, FlagOp::Archived(false))
}

/// The ids of every stored row, or of every unarchived one.
pub open spec fn all_ids(rows: Seq<RowV>, include_archived: bool) -> Seq<i64> {
    rows.filter(|r: RowV| include_archived || !r.archived).map_values(|r: RowV| r.id)
}

/// Applies one flag transition to the whole collection — every row, or
/// every unarchived row — and returns the rows touched.
pub fn mark_all(conn: &mut rusqlite::Connection, op: FlagOp, include_archived: bool) -> (r: Result<
    Vec<Article>,
    StashError,
>)
    ensures
        match r {
            Ok(v) => {
                &&& db_rows(*final(conn)) == flag_applied(
                    db_rows(*old(conn)),
                    all_ids(db_rows(*old(conn)), include_archived),
                    op,
                )
                &&& mutate_fetch_post(
                    db_rows(*old(conn)),
                    all_ids(db_rows(*old(conn)), include_archived),
                    op,
                    article_views(v@),
                )
            },
            Err(e) => e is StoreUnavailable && flag_interrupted(
                db_rows(*old(conn)),
                db_rows(*final(conn)),
                all_ids(db_rows(*old(conn)), include_archived),
                op,
            ),
        },
{
    let rows = match load_all(conn) {
        Ok(rows) => rows,
        Err(e) => {
            proof {
                let targets = all_ids(db_rows(*conn), include_archived);
                assert(db_rows(*conn) =~= flag_applied_prefix(db_rows(*conn), targets, op, 0));
                assert(flag_interrupted(db_rows(*old(conn)), db_rows(*conn), targets, op));
            }
            return Err(e);
        },
    };
    let ghost orig = views_of(rows@);
    let mut ids: Vec<i64> = Vec::new();
    let mut i: usize = 0;
    proof {
        reveal_with_fuel(Seq::filter, 1);
        assert(ids@ =~= all_ids(orig.take(0), include_archived)) by {
            assert(orig.take(0).filter(|r: RowV| include_archived || !r.archived) =~= Seq::<
                RowV,
            >::empty());
        }
    }
    while i < rows.len()
        invariant
            orig == views_of(rows@),
            orig.len() == rows@.len(),
            i <= rows@.len(),
            ids@ == all_ids(orig.take(i as int), include_archived),
        decreases rows@.len() - i,
    {
        proof {
            reveal_with_fuel(Seq::filter, 2);
            assert(orig.take(i + 1).drop_last() =~= orig.take(i as int));
            assert(orig.take(i + 1).last() == orig[i as int]);
        }
        if include_archived || !rows[i].archived {
            ids.push(rows[i].id);
            proof {
                assert(ids@ =~= all_ids(orig.take(i + 1), include_archived)) by {
                    let kept = orig.take(i + 1).filter(
                        |r: RowV| include_archived || !r.archived,
                    );
                    assert(kept =~= orig.take(i as int).filter(
                        |r: RowV| include_archived || !r.archived,
                    ).push(orig[i as int]));
                    assert(kept.map_values(|r: RowV| r.id) =~= orig.take(i as int).filter(
                        |r: RowV| include_archived || !r.archived,
                    ).map_values(|r: RowV| r.id).push(orig[i as int].id));
                }
            }
        } else {
            proof {
                assert(ids@ =~= all_ids(orig.take(i + 1), include_archived));
            }
        }
        i = i + 1;
    }
    proof {
        assert(orig.take(orig.len() as int) =~= orig);
    }
    set_flag(conn, &ids, op)
}

/// Sets or clears the read mark on the whole collection, optionally
/// leaving archived rows alone, and returns the rows touched.
pub fn set_read_all(conn: &mut rusqlite::Connection, read: bool, include_archived: bool) -> (r:
    Result<Vec<Article>, StashError>)
    ensures
        match r {
            Ok(v) => {
                &&& db_rows(*final(conn)) == flag_applied(
                    db_rows(*old(conn)),
                    all_ids(db_rows(*old(conn)), include_archived),
                    FlagOp::Read(read),
                )
                &&& mutate_fetch_post(
                    db_rows(*old(conn)),
                    all_ids(db_rows(*old(conn)), include_archived),
                    FlagOp::Read(read),
                    article_views(v@),
                )
            },
            Err(e) => e is StoreUnavailable && flag_interrupted(
                db_rows(*old(conn)),
                db_rows(*final(conn)),
                all_ids(db_rows(*old(conn)), include_archived),
                FlagOp::Read(read),
            ),
        },
{
    mark_all(conn, FlagOp::Read(read), include_archived)
}

/// The rows that survive deleting an id set.
pub open spec fn kept_rows(rows: Seq<RowV>, ids: Seq<i64>) -> Seq<RowV> {
    rows.filter(|r: RowV| !ids.contains(r.id))
}

/// Splitting off the head commutes with keeping rows.
proof fn lemma_kept_head(rows: Seq<RowV>, ids: Seq<i64>)
    requires
        rows.len() > 0,
    ensures
        kept_rows(rows, ids) == if !ids.contains(rows[0].id) {
            seq![rows[0]].add(kept_rows(rows.skip(1), ids))
        } else {
            kept_rows(rows.skip(1), ids)
        },
    decreases rows.len(),
{
    reveal_with_fuel(Seq::filter, 2);
    if rows.len() == 1 {
        assert(rows.drop_last() =~= Seq::<RowV>::empty());
        assert(rows.skip(1) =~= Seq::<RowV>::empty());
        if !ids.contains(rows[0].id) {
            assert(kept_rows(rows, ids) =~= seq![rows[0]].add(kept_rows(rows.skip(1), ids)));
        } else {
            assert(kept_rows(rows, ids) =~= kept_rows(rows.skip(1), ids));
        }
    } else {
        lemma_kept_head(rows.drop_last(), ids);
        assert(rows.drop_last()[0] == rows[0]);
        assert(rows.skip(1).drop_last() =~= rows.drop_last().skip(1));
        assert(rows.skip(1).last() == rows.last());
        if !ids.contains(rows[0].id) {
            assert(kept_rows(rows, ids) =~= seq![rows[0]].add(kept_rows(rows.skip(1), ids)));
        } else {
            assert(kept_rows(rows, ids) =~= kept_rows(rows.skip(1), ids));
        }
    }
}

/// What a storage failure mid-deletion can leave behind: the targeted
/// rows are gone from some suffix of the table and every other row
/// stands — never anything else. The batch walks the table from its
/// end, so the boundary moves downward.
pub open spec fn delete_interrupted(
    old_rows: Seq<RowV>,
    new_rows: Seq<RowV>,
    ids: Seq<i64>,
) -> bool {
    exists|upto: int|
        0 <= upto <= old_rows.len() && new_rows == old_rows.take(upto).add(
            kept_rows(old_rows.skip(upto), ids),
        )
}

/// Deletes the rows under the listed ids for good, counting the rows
/// that were there. An empty id list deletes nothing and counts zero.
pub fn delete_by_ids(conn: &mut rusqlite::Connection, ids: &Vec<i64>) -> (res: Result<
    usize,
    StashError,
>)
    ensures
        match res {
            Ok(n) => {
                &&& db_rows(*final(conn)) == kept_rows(db_rows(*old(conn)), ids@)
                &&& n == rows_with_ids(db_rows(*old(conn)), ids@).len()
            },
            Err(e) => e is StoreUnavailable && delete_interrupted(
                db_rows(*old(conn)),
                db_rows(*final(conn)),
                ids@,
            ),
        },
        ids@.len() == 0 ==> res == Result::<usize, StashError>::Ok(0usize) && db_rows(*final(conn))
            == db_rows(*old(conn)),
{
    if ids.len() == 0 {
        proof {
            assert forall|r: RowV| !ids@.contains(r.id) by {}
            lemma_filter_none(db_rows(*conn), ids@);
            lemma_filter_all(db_rows(*conn), ids@);
        }
        return Ok(0);
    }
    let rows = match load_all(conn) {
        Ok(rows) => rows,
        Err(e) => {
            proof {
                let n = db_rows(*conn).len() as int;
                assert(kept_rows(db_rows(*conn).skip(n), ids@) =~= Seq::<RowV>::empty()) by {
                    reveal_with_fuel(Seq::filter, 1);
                    assert(db_rows(*conn).skip(n) =~= Seq::<RowV>::empty());
                }
                assert(db_rows(*conn) =~= db_rows(*conn).take(n).add(
                    kept_rows(db_rows(*conn).skip(n), ids@),
                ));
                assert(delete_interrupted(db_rows(*old(conn)), db_rows(*conn), ids@));
            }
            return Err(e);
        },
    };
    let ghost orig = views_of(rows@);
    let mut cnt: usize = 0;
    let mut i: usize = rows.len();
    proof {
        assert(orig.take(orig.len() as int) =~= orig);
        assert(orig.skip(orig.len() as int) =~= Seq::<RowV>::empty());
        reveal_with_fuel(Seq::filter, 1);
        assert(kept_rows(orig.skip(orig.len() as int), ids@) =~= Seq::<RowV>::empty());
        assert(db_rows(*conn) =~= orig.take(orig.len() as int).add(
            kept_rows(orig.skip(orig.len() as int), ids@),
        ));
        assert(rows_with_ids(orig.skip(orig.len() as int), ids@) =~= Seq::<RowV>::empty());
    }
    while i > 0
        invariant
            orig == views_of(rows@),
            orig.len() == rows@.len(),
            orig == db_rows(*old(conn)),
            ids_ascending(orig),
            i <= rows@.len(),
            rows@.len() <= usize::MAX,
            cnt == rows_with_ids(orig.skip(i as int), ids@).len(),
            cnt <= rows@.len() - i,
            db_rows(*conn) == orig.take(i as int).add(kept_rows(orig.skip(i as int), ids@)),
        decreases i,
    {
        i = i - 1;
        let ghost cur = db_rows(*conn);
        proof {
            lemma_kept_head(orig.skip(i as int), ids@);
            assert(orig.skip(i as int)[0] == orig[i as int]);
            assert(orig.skip(i as int).skip(1) =~= orig.skip(i + 1));
            reveal_with_fuel(Seq::filter, 2);
            // count over the suffix grows by the head's membership
            let suf = rows_with_ids(orig.skip(i as int), ids@);
            lemma_rows_with_ids_head(orig.skip(i as int), ids@);
        }
        if contains_id(ids, rows[i].id) {
            match delete_row(conn, rows[i].id) {
                Ok(true) => {
                    proof {
                        let k = choose|k: int|
                            0 <= k < cur.len() && cur[k].id == orig[i as int].id && db_rows(*conn)
                                == cur.remove(k);
                        // the targeted row sits at its snapshot position
                        if k < i {
                            assert(cur[k] == orig[k]);
                            assert(orig[k].id != orig[i as int].id);
                            assert(false);
                        }
                        if k > i {
                            let kk = k - i - 1;
                            let tail = kept_rows(orig.skip(i + 1), ids@);
                            assert(cur[k] == tail[kk]);
                            lemma_kept_in_ids(orig.skip(i + 1), ids@, tail[kk]);
                            assert(false);
                        }
                        assert(cur[i as int] == orig[i as int]);
                        assert(db_rows(*conn) =~= orig.take(i as int).add(
                            kept_rows(orig.skip(i as int), ids@),
                        ));
                    }
                    cnt = cnt + 1;
                },
                Ok(false) => {
                    proof {
                        assert(cur[i as int].id == orig[i as int].id);
                        assert(false);
                    }
                },
                Err(e) => {
                    proof {
                        assert(db_rows(*conn) =~= orig.take(i + 1).add(
                            kept_rows(orig.skip(i + 1), ids@),
                        ));
                        assert(delete_interrupted(db_rows(*old(conn)), db_rows(*conn), ids@));
                    }
                    return Err(e);
                },
            }
        } else {
            proof {
                assert(db_rows(*conn) =~= orig.take(i as int).add(
                    kept_rows(orig.skip(i as int), ids@),
                ));
            }
        }
    }
    proof {
        assert(orig.take(0) =~= Seq::<RowV>::empty());
        assert(orig.skip(0) =~= orig);
        assert(db_rows(*conn) =~= kept_rows(orig, ids@));
    }
    Ok(cnt)
}

/// Every kept row's id stays outside the deleted set.
proof fn lemma_kept_in_ids(rows: Seq<RowV>, ids: Seq<i64>, r: RowV)
    requires
        kept_rows(rows, ids).contains(r),
    ensures
        !ids.contains(r.id),
    decreases rows.len(),
{
    reveal_with_fuel(Seq::filter, 2);
    if rows.len() > 0 {
        let kept = kept_rows(rows, ids);
        let prev = kept_rows(rows.drop_last(), ids);
        if prev.contains(r) {
            lemma_kept_in_ids(rows.drop_last(), ids, r);
        }
    }
}

/// Splitting off the head commutes with selecting rows by id.
proof fn lemma_rows_with_ids_head(rows: Seq<RowV>, ids: Seq<i64>)
    requires
        rows.len() > 0,
    ensures
        rows_with_ids(rows, ids) == if ids.contains(rows[0].id) {
            seq![rows[0]].add(rows_with_ids(rows.skip(1), ids))
        } else {
            rows_with_ids(rows.skip(1), ids)
        },
    decreases rows.len(),
{
    reveal_with_fuel(Seq::filter, 2);
    if rows.len() == 1 {
        assert(rows.drop_last() =~= Seq::<RowV>::empty());
        assert(rows.skip(1) =~= Seq::<RowV>::empty());
        if ids.contains(rows[0].id) {
            assert(rows_with_ids(rows, ids) =~= seq![rows[0]].add(
                rows_with_ids(rows.skip(1), ids),
            ));
        } else {
            assert(rows_with_ids(rows, ids) =~= rows_with_ids(rows.skip(1), ids));
        }
    } else {
        lemma_rows_with_ids_head(rows.drop_last(), ids);
        assert(rows.drop_last()[0] == rows[0]);
        assert(rows.skip(1).drop_last() =~= rows.drop_last().skip(1));
        assert(rows.skip(1).last() == rows.last());
        if ids.contains(rows[0].id) {
            assert(rows_with_ids(rows, ids) =~= seq![rows[0]].add(
                rows_with_ids(rows.skip(1), ids),
            ));
        } else {
            assert(rows_with_ids(rows, ids) =~= rows_with_ids(rows.skip(1), ids));
        }
    }
}

/// A filter admitting everything keeps everything.
proof fn lemma_filter_all(rows: Seq<RowV>, ids: Seq<i64>)
    requires
        forall|r: RowV| !ids.contains(r.id),
    ensures
        kept_rows(rows, ids) == rows,
    decreases rows.len(),
{
    reveal_with_fuel(Seq::filter, 2);
    if rows.len() == 0 {
        assert(kept_rows(rows, ids) =~= rows);
    } else {
        lemma_filter_all(rows.drop_last(), ids);
        assert(kept_rows(rows, ids) =~= rows.drop_last().push(rows.last()));
        assert(rows.drop_last().push(rows.last()) =~= rows);
    }
}

/// The position of the row under this id, if it is stored.
fn find_row_by_id(rows: &Vec<StoredRow>, id: i64) -> (r: Option<usize>)
    ensures
        match r {
            Some(k) => k < rows@.len() && rows@[k as int]@.id == id,
            None => forall|j: int| 0 <= j < rows@.len() ==> #[trigger] rows@[j]@.id != id,
        },
{
    let mut i: usize = 0;
    while i < rows.len()
        invariant
            i <= rows@.len(),
            forall|j: int| 0 <= j < i ==> #[trigger] rows@[j]@.id != id,
        decreases rows@.len() - i,
    {
        if rows[i].id == id {
            return Some(i);
        }
        i = i + 1;
    }
    None
}

/// Replaces the row under `id` with `newr`, whose id must agree, and
/// reads it back. The helper behind the single-row edit operations.
fn commit_row(conn: &mut rusqlite::Connection, newr: StoredRow) -> (r: Result<Article, StashError>)
    requires
        exists|k: int|
            0 <= k < db_rows(*old(conn)).len() && #[trigger] db_rows(*old(conn))[k].id == newr@.id,
        ids_ascending(db_rows(*old(conn))),
    ensures
        match r {
            Ok(a) => exists|k: int|
                {
                    &&& 0 <= k < db_rows(*old(conn)).len()
                    &&& #[trigger] db_rows(*old(conn))[k].id == newr@.id
                    &&& db_rows(*final(conn)) == db_rows(*old(conn)).update(k, newr@)
                    &&& reads_as(newr@, a@)
                },
            Err(e) => e is StoreUnavailable && db_rows(*final(conn)) == db_rows(*old(conn)),
        },
{
    let ghost cur = db_rows(*conn);
    match update_row(conn, &newr) {
        Ok(true) => {
            let now = now_ts();
            let a = row_to_article(&newr, now);
            Ok(a)
        },
        Ok(false) => {
            // cannot happen: a row under this id is required to be stored
            proof {
                let k = choose|k: int| 0 <= k < cur.len() && #[trigger] cur[k].id == newr@.id;
                assert(false);
            }
            Err(StashError::StoreUnavailable { message: String::new() })
        },
        Err(e) => Err(e),
    }
}

/// Replaces an article's tag list wholesale and returns the updated
/// article; the caller computes the new set.
pub fn update_tags(conn: &mut rusqlite::Connection, id: i64, tags: Vec<String>) -> (r: Result<
    Article,
    StashError,
>)
    ensures
        match r {
            Ok(a) => {
                &&& a@.id == id
                &&& a@.tags == tags.deep_view()
                &&& exists|k: int|
                    {
                        &&& 0 <= k < db_rows(*old(conn)).len()
                        &&& #[trigger] db_rows(*old(conn))[k].id == id
                        &&& db_rows(*final(conn)) == db_rows(*old(conn)).update(
                            k,
                            RowV {
                                tags_json: crate::tagjson::encode_tags_spec(tags.deep_view()),
                                ..db_rows(*old(conn))[k]
                            },
                        )
                        &&& reads_as(
                            RowV {
                                tags_json: crate::tagjson::encode_tags_spec(tags.deep_view()),
                                ..db_rows(*old(conn))[k]
                            },
                            a@,
                        )
                    }
            },
            Err(e) => {
                &&& db_rows(*final(conn)) == db_rows(*old(conn))
                &&& match e {
                    StashError::NotFound { id: missing } => missing == id && forall|j: int|
                        0 <= j < db_rows(*old(conn)).len() ==> #[trigger] db_rows(*old(conn))[j].id
                            != id,
                    StashError::StoreUnavailable { .. } => true,
                    _ => false,
                }
            },
        },
{
    let rows = match load_all(conn) {
        Ok(rows) => rows,
        Err(e) => {
            return Err(e);
        },
    };
    let k = match find_row_by_id(&rows, id) {
        Some(k) => k,
        None => {
            return Err(StashError::NotFound { id });
        },
    };
    let mut newr = clone_row(&rows[k]);
    newr.tags_json = crate::tagjson::encode_tags(&tags);
    proof {
        assert(views_of(rows@)[k as int] == rows@[k as int]@);
        assert(newr@ =~= RowV {
            tags_json: crate::tagjson::encode_tags_spec(tags.deep_view()),
            ..db_rows(*conn)[k as int]
        });
    }
    match commit_row(conn, newr) {
        Ok(a) => {
            proof {
                lemma_tags_round_trip(tags.deep_view());
            }
            Ok(a)
        },
        Err(e) => Err(e),
    }
}

/// Replaces an article's note and returns the updated article; clearing
/// passes no note.
pub fn update_note(conn: &mut rusqlite::Connection, id: i64, note: Option<String>) -> (r: Result<
    Article,
    StashError,
>)
    ensures
        match r {
            Ok(a) => {
                &&& a@.id == id
                &&& a@.note == note.deep_view()
                &&& exists|k: int|
                    {
                        &&& 0 <= k < db_rows(*old(conn)).len()
                        &&& #[trigger] db_rows(*old(conn))[k].id == id
                        &&& db_rows(*final(conn)) == db_rows(*old(conn)).update(
                            k,
                            RowV { note: note.deep_view(), ..db_rows(*old(conn))[k] },
                        )
                        &&& reads_as(RowV { note: note.deep_view(), ..db_rows(*old(conn))[k] }, a@)
                    }
            },
            Err(e) => {
                &&& db_rows(*final(conn)) == db_rows(*old(conn))
                &&& match e {
                    StashError::NotFound { id: missing } => missing == id && forall|j: int|
                        0 <= j < db_rows(*old(conn)).len() ==> #[trigger] db_rows(*old(conn))[j].id
                            != id,
                    StashError::StoreUnavailable { .. } => true,
                    _ => false,
                }
            },
        },
{
    let rows = match load_all(conn) {
        Ok(rows) => rows,
        Err(e) => {
            return Err(e);
        },
    };
    let k = match find_row_by_id(&rows, id) {
        Some(k) => k,
        None => {
            return Err(StashError::NotFound { id });
        },
    };
    let mut newr = clone_row(&rows[k]);
    newr.note = note;
    proof {
        assert(views_of(rows@)[k as int] == rows@[k as int]@);
        assert(newr@ =~= RowV { note: newr@.note, ..db_rows(*conn)[k as int] });
    }
    commit_row(conn, newr)
}

/// Edits the full record: title, URL, note, tags and flags, in one
/// write. The URL must be syntactically well formed, or the edit is
/// rejected before anything is written; the canonical URL and the saved
/// time keep their stored values.
pub fn update_article_metadata(
    conn: &mut rusqlite::Connection,
    id: i64,
    title: Option<String>,
    url: String,
    note: Option<String>,
    tags: Vec<String>,
    starred: bool,
    read: bool,
    archived: bool,
) -> (r: Result<Article, StashError>)
    ensures
        match r {
            Ok(a) => {
                &&& crate::metadata::url_accepted(url@)
                &&& a@.id == id
                &&& a@.title == title.deep_view()
                &&& a@.url == url@
                &&& a@.note == note.deep_view()
                &&& a@.tags == tags.deep_view()
                &&& a@.starred == starred
                &&& a@.read == read
                &&& a@.archived == archived
                &&& exists|k: int|
                    {
                        &&& 0 <= k < db_rows(*old(conn)).len()
                        &&& #[trigger] db_rows(*old(conn))[k].id == id
                        &&& db_rows(*final(conn)) == db_rows(*old(conn)).update(
                            k,
                            edited_row(
                                db_rows(*old(conn))[k],
                                title.deep_view(),
                                url@,
                                note.deep_view(),
                                tags.deep_view(),
                                starred,
                                read,
                                archived,
                            ),
                        )
                    }
            },
            Err(e) => {
                &&& db_rows(*final(conn)) == db_rows(*old(conn))
                &&& match e {
                    StashError::ValidationError { .. } => !crate::metadata::url_accepted(url@),
                    StashError::NotFound { id: missing } => crate::metadata::url_accepted(url@)
                        && missing == id && forall|j: int|
                        0 <= j < db_rows(*old(conn)).len() ==> #[trigger] db_rows(*old(conn))[j].id
                            != id,
                    StashError::StoreUnavailable { .. } => true,
                    _ => false,
                }
            },
        },
{
    if !crate::metadata::url_is_valid(url.as_str()) {
        return Err(StashError::ValidationError { message: url });
    }
    let rows = match load_all(conn) {
        Ok(rows) => rows,
        Err(e) => {
            return Err(e);
        },
    };
    let k = match find_row_by_id(&rows, id) {
        Some(k) => k,
        None => {
            return Err(StashError::NotFound { id });
        },
    };
    let mut newr = clone_row(&rows[k]);
    newr.title = title;
    newr.url = url;
    newr.note = note;
    newr.tags_json = crate::tagjson::encode_tags(&tags);
    newr.starred = starred;
    newr.read = read;
    newr.archived = archived;
    proof {
        assert(views_of(rows@)[k as int] == rows@[k as int]@);
        assert(newr@ =~= edited_row(
            db_rows(*conn)[k as int],
            newr@.title,
            newr@.url,
            newr@.note,
            tags.deep_view(),
            starred,
            read,
            archived,
        ));
    }
    match commit_row(conn, newr) {
        Ok(a) => {
            proof {
                lemma_tags_round_trip(tags.deep_view());
            }
            Ok(a)
        },
        Err(e) => Err(e),
    }
}

/// The row a full edit leaves behind: the edited fields replaced, the
/// identity, fingerprint, canonical URL and timestamps untouched.
pub open spec fn edited_row(
    r: RowV,
    title: Option<Seq<char>>,
    url: Seq<char>,
    note: Option<Seq<char>>,
    tags: Seq<Seq<char>>,
    starred: bool,
    read: bool,
    archived: bool,
) -> RowV {
    RowV {
        title: title,
        url: url,
        note: note,
        tags_json: crate::tagjson::encode_tags_spec(tags),
        starred: starred,
        read: read,
        archived: archived,
        ..r
    }
}

/// The tag list a row carries.
pub open spec fn row_tags(r: RowV) -> Seq<Seq<char>> {
    crate::article::tags_of_column(r.tags_json)
}

/// The table after merging source tags into one tag across every row:
/// each row carrying a source tag is rewritten, the rest stand.
pub open spec fn merged_rows(rows: Seq<RowV>, sources: Seq<Seq<char>>, into: Seq<char>) -> Seq<
    RowV,
> {
    rows.map_values(
        |r: RowV|
            if crate::tags::merge_affects(row_tags(r), sources, into) {
                RowV {
                    tags_json: crate::tagjson::encode_tags_spec(
                        crate::tags::merge_str(row_tags(r), sources, into),
                    ),
                    ..r
                }
            } else {
                r
            },
    )
}

/// The rows a merge touches: those carrying any source tag.
pub open spec fn merge_touched(rows: Seq<RowV>, sources: Seq<Seq<char>>, into: Seq<char>) -> Seq<
    RowV,
> {
    rows.filter(|r: RowV| crate::tags::merge_affects(row_tags(r), sources, into))
}

/// The table after the merge has reached the first `upto` rows:
/// touched rows before that point rewritten, everything from it on
/// untouched.
pub open spec fn merge_applied_prefix(
    rows: Seq<RowV>,
    sources: Seq<Seq<char>>,
    into: Seq<char>,
    upto: int,
) -> Seq<RowV> {
    Seq::new(
        rows.len(),
        |j: int|
            if j < upto && crate::tags::merge_affects(row_tags(rows[j]), sources, into) {
                RowV {
                    tags_json: crate::tagjson::encode_tags_spec(
                        crate::tags::merge_str(row_tags(rows[j]), sources, into),
                    ),
                    ..rows[j]
                }
            } else {
                rows[j]
            },
    )
}

/// What a storage failure mid-merge can leave behind: the rows are
/// rewritten up to some point and untouched from there on.
pub open spec fn merge_interrupted(
    old_rows: Seq<RowV>,
    new_rows: Seq<RowV>,
    sources: Seq<Seq<char>>,
    into: Seq<char>,
) -> bool {
    exists|upto: int|
        0 <= upto <= old_rows.len() && new_rows == merge_applied_prefix(
            old_rows,
            sources,
            into,
            upto,
        )
}

/// Merges the source tags into `into` across the whole collection: the
/// source tags disappear, `into` appears exactly once on every touched
/// row. Counts the rows touched.
pub fn merge_tags(conn: &mut rusqlite::Connection, sources: &Vec<String>, into: &String) -> (res:
    Result<usize, StashError>)
    ensures
        match res {
            Ok(n) => {
                &&& db_rows(*final(conn)) == merged_rows(
                    db_rows(*old(conn)),
                    sources.deep_view(),
                    into@,
                )
                &&& n == merge_touched(db_rows(*old(conn)), sources.deep_view(), into@).len()
            },
            Err(e) => e is StoreUnavailable && merge_interrupted(
                db_rows(*old(conn)),
                db_rows(*final(conn)),
                sources.deep_view(),
                into@,
            ),
        },
{
    let rows = match load_all(conn) {
        Ok(rows) => rows,
        Err(e) => {
            proof {
                assert(db_rows(*conn) =~= merge_applied_prefix(
                    db_rows(*conn),
                    sources.deep_view(),
                    into@,
                    0,
                ));
                assert(merge_interrupted(
                    db_rows(*old(conn)),
                    db_rows(*conn),
                    sources.deep_view(),
                    into@,
                ));
            }
            return Err(e);
        },
    };
    let ghost orig = views_of(rows@);
    let ghost sv = sources.deep_view();
    let nrows = rows.len();
    proof {
        assert(rows@.len() == nrows);
    }
    let mut cnt: usize = 0;
    let mut i: usize = 0;
    proof {
        assert(db_rows(*conn) =~= merge_applied_prefix(orig, sv, into@, 0));
        assert(merge_touched(orig.take(0), sv, into@) =~= Seq::<RowV>::empty());
    }
    while i < rows.len()
        invariant
            orig == views_of(rows@),
            orig.len() == rows@.len(),
            rows@.len() <= usize::MAX,
            ids_ascending(orig),
            sv == sources.deep_view(),
            i <= rows@.len(),
            cnt == merge_touched(orig.take(i as int), sv, into@).len(),
            cnt <= i,
            orig == db_rows(*old(conn)),
            db_rows(*conn) == merge_applied_prefix(orig, sv, into@, i as int),
        decreases rows@.len() - i,
    {
        proof {
            reveal_with_fuel(Seq::filter, 2);
            assert(orig.take(i + 1).drop_last() =~= orig.take(i as int));
            assert(orig.take(i + 1).last() == orig[i as int]);
        }
        let tags = crate::tagjson::decode_tags_or_empty(rows[i].tags_json.as_str());
        proof {
            assert(tags.deep_view() == row_tags(orig[i as int]));
        }
        let (newtags, touched) = crate::tags::merge_tag_list(&tags, sources, into);
        if touched {
            let ghost cur = db_rows(*conn);
            let mut newr = clone_row(&rows[i]);
            newr.tags_json = crate::tagjson::encode_tags(&newtags);
            proof {
                assert(newr@.id == orig[i as int].id);
                assert(cur[i as int].id == orig[i as int].id);
                assert(newr@ =~= RowV {
                    tags_json: crate::tagjson::encode_tags_spec(
                        crate::tags::merge_str(row_tags(orig[i as int]), sv, into@),
                    ),
                    ..orig[i as int]
                });
            }
            match update_row(conn, &newr) {
                Ok(true) => {
                    proof {
                        let k = choose|k: int|
                            0 <= k < cur.len() && cur[k].id == newr@.id && db_rows(*conn)
                                == cur.update(k, newr@);
                        assert(cur[k].id == orig[k].id);
                        if k != i as int {
                            assert(orig[k].id != orig[i as int].id);
                            assert(false);
                        }
                        assert(db_rows(*conn) =~= merge_applied_prefix(orig, sv, into@, i + 1));
                    }
                    cnt = cnt + 1;
                },
                Ok(false) => {
                    proof {
                        assert(cur[i as int].id == newr@.id);
                        assert(false);
                    }
                },
                Err(e) => {
                    proof {
                        assert(merge_interrupted(
                            db_rows(*old(conn)),
                            db_rows(*conn),
                            sv,
                            into@,
                        ));
                    }
                    return Err(e);
                },
            }
        } else {
            proof {
                assert(db_rows(*conn) =~= merge_applied_prefix(orig, sv, into@, i + 1));
            }
        }
        i = i + 1;
    }
    proof {
        assert(orig.take(orig.len() as int) =~= orig);
        assert(db_rows(*conn) =~= merged_rows(orig, sv, into@));
    }
    Ok(cnt)
}

/// Renames one tag across the whole collection: a merge of the single
/// old name into the new one, which also collapses a row carrying both.
/// Counts the rows touched.
pub fn rename_tag(conn: &mut rusqlite::Connection, old_tag: &String, new_tag: &String) -> (res:
    Result<usize, StashError>)
    ensures
        match res {
            Ok(n) => {
                &&& db_rows(*final(conn)) == merged_rows(
                    db_rows(*old(conn)),
                    seq![old_tag@],
                    new_tag@,
                )
                &&& n == merge_touched(db_rows(*old(conn)), seq![old_tag@], new_tag@).len()
            },
            Err(e) => e is StoreUnavailable && merge_interrupted(
                db_rows(*old(conn)),
                db_rows(*final(conn)),
                seq![old_tag@],
                new_tag@,
            ),
        },
{
    let mut sources: Vec<String> = Vec::new();
    sources.push(old_tag.clone());
    proof {
        assert(sources.deep_view() =~= seq![old_tag@]);
    }
    merge_tags(conn, &sources, new_tag)
}

/// The table after deleting one tag everywhere.
pub open spec fn untagged_rows(rows: Seq<RowV>, tag: Seq<char>) -> Seq<RowV> {
    rows.map_values(
        |r: RowV|
            if crate::tags::contains_str(row_tags(r), tag) {
                RowV {
                    tags_json: crate::tagjson::encode_tags_spec(
                        crate::tags::remove_str(row_tags(r), tag),
                    ),
                    ..r
                }
            } else {
                r
            },
    )
}

/// The rows that carry the tag.
pub open spec fn tagged_rows(rows: Seq<RowV>, tag: Seq<char>) -> Seq<RowV> {
    rows.filter(|r: RowV| crate::tags::contains_str(row_tags(r), tag))
}

/// The table after the deletion has reached the first `upto` rows:
/// carrying rows before that point rewritten without the tag,
/// everything from it on untouched.
pub open spec fn untag_applied_prefix(rows: Seq<RowV>, tag: Seq<char>, upto: int) -> Seq<RowV> {
    Seq::new(
        rows.len(),
        |j: int|
            if j < upto && crate::tags::contains_str(row_tags(rows[j]), tag) {
                RowV {
                    tags_json: crate::tagjson::encode_tags_spec(
                        crate::tags::remove_str(row_tags(rows[j]), tag),
                    ),
                    ..rows[j]
                }
            } else {
                rows[j]
            },
    )
}

/// What a storage failure mid-deletion of a tag can leave behind: the
/// rows are rewritten up to some point and untouched from there on.
pub open spec fn untag_interrupted(
    old_rows: Seq<RowV>,
    new_rows: Seq<RowV>,
    tag: Seq<char>,
) -> bool {
    exists|upto: int|
        0 <= upto <= old_rows.len() && new_rows == untag_applied_prefix(old_rows, tag, upto)
}

/// Deletes one tag from every row that carries it, counting those rows.
pub fn delete_tag(conn: &mut rusqlite::Connection, tag: &String) -> (res: Result<
    usize,
    StashError,
>)
    ensures
        match res {
            Ok(n) => {
                &&& db_rows(*final(conn)) == untagged_rows(db_rows(*old(conn)), tag@)
                &&& n == tagged_rows(db_rows(*old(conn)), tag@).len()
            },
            Err(e) => e is StoreUnavailable && untag_interrupted(
                db_rows(*old(conn)),
                db_rows(*final(conn)),
                tag@,
            ),
        },
{
    let rows = match load_all(conn) {
        Ok(rows) => rows,
        Err(e) => {
            proof {
                assert(db_rows(*conn) =~= untag_applied_prefix(db_rows(*conn), tag@, 0));
                assert(untag_interrupted(db_rows(*old(conn)), db_rows(*conn), tag@));
            }
            return Err(e);
        },
    };
    let ghost orig = views_of(rows@);
    let nrows = rows.len();
    proof {
        assert(rows@.len() == nrows);
    }
    let mut cnt: usize = 0;
    let mut i: usize = 0;
    proof {
        assert(db_rows(*conn) =~= untag_applied_prefix(orig, tag@, 0));
        assert(tagged_rows(orig.take(0), tag@) =~= Seq::<RowV>::empty());
    }
    while i < rows.len()
        invariant
            orig == views_of(rows@),
            orig.len() == rows@.len(),
            rows@.len() <= usize::MAX,
            ids_ascending(orig),
            i <= rows@.len(),
            cnt == tagged_rows(orig.take(i as int), tag@).len(),
            cnt <= i,
            orig == db_rows(*old(conn)),
            db_rows(*conn) == untag_applied_prefix(orig, tag@, i as int),
        decreases rows@.len() - i,
    {
        proof {
            reveal_with_fuel(Seq::filter, 2);
            assert(orig.take(i + 1).drop_last() =~= orig.take(i as int));
            assert(orig.take(i + 1).last() == orig[i as int]);
        }
        let tags = crate::tagjson::decode_tags_or_empty(rows[i].tags_json.as_str());
        proof {
            assert(tags.deep_view() == row_tags(orig[i as int]));
        }
        if crate::tags::has_tag(&tags, tag) {
            let ghost cur = db_rows(*conn);
            let newtags = crate::tags::remove_tag(&tags, tag);
            let mut newr = clone_row(&rows[i]);
            newr.tags_json = crate::tagjson::encode_tags(&newtags);
            proof {
                assert(newr@.id == orig[i as int].id);
                assert(cur[i as int].id == orig[i as int].id);
                assert(newr@ =~= RowV {
                    tags_json: crate::tagjson::encode_tags_spec(
                        crate::tags::remove_str(row_tags(orig[i as int]), tag@),
                    ),
                    ..orig[i as int]
                });
            }
            match update_row(conn, &newr) {
                Ok(true) => {
                    proof {
                        let k = choose|k: int|
                            0 <= k < cur.len() && cur[k].id == newr@.id && db_rows(*conn)
                                == cur.update(k, newr@);
                        assert(cur[k].id == orig[k].id);
                        if k != i as int {
                            assert(orig[k].id != orig[i as int].id);
                            assert(false);
                        }
                        assert(db_rows(*conn) =~= untag_applied_prefix(orig, tag@, i + 1));
                    }
                    cnt = cnt + 1;
                },
                Ok(false) => {
                    proof {
                        assert(cur[i as int].id == newr@.id);
                        assert(false);
                    }
                },
                Err(e) => {
                    proof {
                        assert(untag_interrupted(db_rows(*old(conn)), db_rows(*conn), tag@));
                    }
                    return Err(e);
                },
            }
        } else {
            proof {
                assert(db_rows(*conn) =~= untag_applied_prefix(orig, tag@, i + 1));
            }
        }
        i = i + 1;
    }
    proof {
        assert(orig.take(orig.len() as int) =~= orig);
        assert(db_rows(*conn) =~= untagged_rows(orig, tag@));
    }
    Ok(cnt)
}

/// The text of an optional field, an absent field reading as empty.
pub open spec fn opt_text(o: Option<Seq<char>>) -> Seq<char> {
    match o {
        Some(s) => s,
        None => Seq::empty(),
    }
}

/// Whether a row's text matches a query: the query occurs, ASCII case
/// blind, in the title, the description, the URL or the note.
pub open spec fn text_matches(r: RowV, q: Seq<char>) -> bool {
    ||| crate::strutil::contains_fold(opt_text(r.title), q)
    ||| crate::strutil::contains_fold(opt_text(r.description), q)
    ||| crate::strutil::contains_fold(r.url, q)
    ||| crate::strutil::contains_fold(opt_text(r.note), q)
}

/// The rows a search admits: the scope and tag toggles, and a text
/// match on the query.
pub open spec fn searched_rows(
    rows: Seq<RowV>,
    q: Seq<char>,
    all: bool,
    archived: bool,
    starred: bool,
    required: Seq<Seq<char>>,
) -> Seq<RowV> {
    rows.filter(
        |r: RowV| crate::listing::row_matches(r, all, archived, starred, required) && text_matches(
            r,
            q,
        ),
    )
}

fn opt_contains(field: &Option<String>, q: &Vec<char>) -> (r: bool)
    ensures
        r == crate::strutil::contains_fold(opt_text(field.deep_view()), q@),
{
    match field {
        Some(s) => {
            let chars = crate::strutil::str_to_chars(s.as_str());
            crate::strutil::contains_fold_exec(&chars, q)
        },
        None => {
            let empty: Vec<char> = Vec::new();
            proof {
                assert(empty@ =~= Seq::<char>::empty());
            }
            crate::strutil::contains_fold_exec(&empty, q)
        },
    }
}

fn text_matches_exec(r: &StoredRow, q: &Vec<char>) -> (res: bool)
    ensures
        res == text_matches(r@, q@),
{
    if opt_contains(&r.title, q) {
        return true;
    }
    if opt_contains(&r.description, q) {
        return true;
    }
    let url_chars = crate::strutil::str_to_chars(r.url.as_str());
    if crate::strutil::contains_fold_exec(&url_chars, q) {
        return true;
    }
    opt_contains(&r.note, q)
}

/// Searches the collection: scope and tag toggles as a listing, a text
/// match on the query over title, description, URL and note, most
/// recently saved first.
pub fn search_articles(
    conn: &rusqlite::Connection,
    query: &str,
    limit: i64,
    all: bool,
    archived: bool,
    starred: bool,
    tags: &Vec<String>,
) -> (r: Result<Vec<Article>, StashError>)
    ensures
        match r {
            Ok(v) => exists|sorted: Seq<RowV>|
                {
                    &&& sorted.to_multiset() == searched_rows(
                        db_rows(*conn),
                        query@,
                        all,
                        archived,
                        starred,
                        tags.deep_view(),
                    ).to_multiset()
                    &&& crate::listing::rows_sorted(
                        sorted,
                        crate::listing::RowOrder::ByField {
                            field: crate::listing::SortField::Time,
                            asc: false,
                        },
                    )
                    &&& article_views(v@).len() == limit_clamp(limit, sorted.len() as int)
                    &&& forall|i: int|
                        0 <= i < article_views(v@).len() ==> reads_as(
                            #[trigger] sorted[i],
                            article_views(v@)[i],
                        )
                },
            Err(e) => e is StoreUnavailable,
        },
{
    let rows = match load_all(conn) {
        Ok(rows) => rows,
        Err(e) => {
            return Err(e);
        },
    };
    let q = crate::strutil::str_to_chars(query);
    let mut picked: Vec<StoredRow> = Vec::new();
    let mut i: usize = 0;
    proof {
        assert(views_of(picked@) =~= Seq::<RowV>::empty());
        assert(searched_rows(
            views_of(rows@).take(0),
            query@,
            all,
            archived,
            starred,
            tags.deep_view(),
        ) =~= Seq::<RowV>::empty());
    }
    while i < rows.len()
        invariant
            views_of(rows@) == db_rows(*conn),
            q@ == query@,
            i <= rows@.len(),
            views_of(picked@) == searched_rows(
                views_of(rows@).take(i as int),
                query@,
                all,
                archived,
                starred,
                tags.deep_view(),
            ),
        decreases rows@.len() - i,
    {
        proof {
            reveal_with_fuel(Seq::filter, 2);
            assert(views_of(rows@).take(i + 1).drop_last() =~= views_of(rows@).take(i as int));
            assert(views_of(rows@).take(i + 1).last() == rows@[i as int]@);
        }
        if crate::listing::row_matches_exec(&rows[i], all, archived, starred, tags)
            && text_matches_exec(&rows[i], &q) {
            let ghost before = views_of(picked@);
            picked.push(clone_row(&rows[i]));
            proof {
                assert(views_of(picked@) =~= before.push(rows@[i as int]@));
            }
        }
        i = i + 1;
    }
    proof {
        assert(views_of(rows@).take(rows@.len() as int) =~= views_of(rows@));
    }
    let ord = crate::listing::RowOrder::ByField {
        field: crate::listing::SortField::Time,
        asc: false,
    };
    let sorted = crate::listing::sort_rows(picked, &ord);
    let ghost sorted_v = views_of(sorted@);
    let limited = take_limit(sorted, limit);
    let now = now_ts();
    let out = rows_to_articles(&limited, now);
    proof {
        assert forall|i: int| 0 <= i < article_views(out@).len() implies reads_as(
            #[trigger] sorted_v[i],
            article_views(out@)[i],
        ) by {
            assert(limited@[i]@ == sorted_v[i]);
            assert(article_views(out@)[i] == out@[i]@);
        }
    }
    Ok(out)
}

/// How often one tag occurs across the table, occurrences within one
/// row counted separately.
pub open spec fn tag_occurrences(rows: Seq<RowV>, t: Seq<char>) -> int
    decreases rows.len(),
{
    if rows.len() == 0 {
        0
    } else {
        tag_occurrences(rows.drop_last(), t) + row_tags(rows.last()).filter(
            |x: Seq<char>| x == t,
        ).len()
    }
}

fn count_in_tags(tags: &Vec<String>, t: &String) -> (n: usize)
    ensures
        n == tags.deep_view().filter(|x: Seq<char>| x == t@).len(),
        n <= tags@.len(),
{
    let mut n: usize = 0;
    let mut i: usize = 0;
    proof {
        reveal_with_fuel(Seq::filter, 1);
        assert(tags.deep_view().take(0).filter(|x: Seq<char>| x == t@) =~= Seq::<
            Seq<char>,
        >::empty());
    }
    while i < tags.len()
        invariant
            i <= tags@.len(),
            tags.deep_view().len() == tags@.len(),
            n == tags.deep_view().take(i as int).filter(|x: Seq<char>| x == t@).len(),
            n <= i,
        decreases tags@.len() - i,
    {
        proof {
            reveal_with_fuel(Seq::filter, 2);
            assert(tags.deep_view().take(i + 1).drop_last() =~= tags.deep_view().take(i as int));
            assert(tags.deep_view().take(i + 1).last() == tags.deep_view()[i as int]);
            assert(tags.deep_view()[i as int] == tags@[i as int]@);
        }
        if string_eq(&tags[i], t) {
            n = n + 1;
        }
        i = i + 1;
    }
    proof {
        assert(tags.deep_view().take(tags@.len() as int) =~= tags.deep_view());
    }
    n
}

/// Counts one tag's occurrences over a row snapshot. A total beyond the
/// machine's word saturates at the largest count.
fn count_occurrences(rows: &Vec<StoredRow>, t: &String) -> (n: usize)
    ensures
        tag_occurrences(views_of(rows@), t@) <= usize::MAX ==> n == tag_occurrences(
            views_of(rows@),
            t@,
        ),
        tag_occurrences(views_of(rows@), t@) > usize::MAX ==> n == usize::MAX,
{
    let mut n: usize = 0;
    let mut i: usize = 0;
    let ghost orig = views_of(rows@);
    proof {
        assert(orig.take(0) =~= Seq::<RowV>::empty());
    }
    while i < rows.len()
        invariant
            orig == views_of(rows@),
            orig.len() == rows@.len(),
            i <= rows@.len(),
            tag_occurrences(orig.take(i as int), t@) <= usize::MAX ==> n == tag_occurrences(
                orig.take(i as int),
                t@,
            ),
            tag_occurrences(orig.take(i as int), t@) > usize::MAX ==> n == usize::MAX,
            n <= tag_occurrences(orig.take(i as int), t@),
        decreases rows@.len() - i,
    {
        proof {
            assert(orig.take(i + 1).drop_last() =~= orig.take(i as int));
            assert(orig.take(i + 1).last() == orig[i as int]);
            lemma_tag_occurrences_nonneg(orig.take(i as int), t@);
        }
        let tags = crate::tagjson::decode_tags_or_empty(rows[i].tags_json.as_str());
        proof {
            assert(tags.deep_view() == row_tags(orig[i as int]));
        }
        let k = count_in_tags(&tags, t);
        if usize::MAX - n >= k {
            n = n + k;
        } else {
            n = usize::MAX;
        }
        i = i + 1;
    }
    proof {
        assert(orig.take(orig.len() as int) =~= orig);
    }
    n
}

proof fn lemma_tag_occurrences_nonneg(rows: Seq<RowV>, t: Seq<char>)
    ensures
        tag_occurrences(rows, t) >= 0,
    decreases rows.len(),
{
    if rows.len() > 0 {
        lemma_tag_occurrences_nonneg(rows.drop_last(), t);
    }
}

/// Every tag in use, with how often it occurs, in ascending name order.
/// Each listed name occurs; every name that occurs is listed once.
pub fn get_all_tags_with_counts(conn: &rusqlite::Connection) -> (r: Result<
    Vec<(String, usize)>,
    StashError,
>)
    ensures
        match r {
            Ok(v) => tag_counts_post(db_rows(*conn), v@),
            Err(e) => e is StoreUnavailable,
        },
{
    let rows = match load_all(conn) {
        Ok(rows) => rows,
        Err(e) => {
            return Err(e);
        },
    };
    let ghost orig = views_of(rows@);
    // gather each name once
    let mut names: Vec<String> = Vec::new();
    let mut i: usize = 0;
    proof {
        assert(all_used_tags(orig.take(0)) =~= Seq::<Seq<char>>::empty());
    }
    while i < rows.len()
        invariant
            orig == views_of(rows@),
            orig.len() == rows@.len(),
            i <= rows@.len(),
            forall|a: int, b: int|
                0 <= a < b < names@.len() ==> names.deep_view()[a] != names.deep_view()[b],
            forall|a: int|
                0 <= a < names@.len() ==> crate::tags::contains_str(
                    all_used_tags(orig.take(i as int)),
                    #[trigger] names.deep_view()[a],
                ),
            forall|t: Seq<char>|
                crate::tags::contains_str(all_used_tags(orig.take(i as int)), t)
                    ==> crate::tags::contains_str(names.deep_view(), t),
        decreases rows@.len() - i,
    {
        proof {
            lemma_used_tags_step(orig, i as int);
        }
        let tags = crate::tagjson::decode_tags_or_empty(rows[i].tags_json.as_str());
        proof {
            assert(tags.deep_view() == row_tags(orig[i as int]));
        }
        let mut j: usize = 0;
        while j < tags.len()
            invariant
                orig == views_of(rows@),
                orig.len() == rows@.len(),
                i < rows@.len(),
                tags.deep_view() == row_tags(orig[i as int]),
                tags.deep_view().len() == tags@.len(),
                j <= tags@.len(),
                forall|a: int, b: int|
                    0 <= a < b < names@.len() ==> names.deep_view()[a] != names.deep_view()[b],
                forall|a: int|
                    0 <= a < names@.len() ==> crate::tags::contains_str(
                        all_used_tags(orig.take(i + 1)),
                        #[trigger] names.deep_view()[a],
                    ) || crate::tags::contains_str(
                        all_used_tags(orig.take(i as int)),
                        names.deep_view()[a],
                    ),
                forall|t: Seq<char>|
                    crate::tags::contains_str(all_used_tags(orig.take(i as int)), t)
                        ==> crate::tags::contains_str(names.deep_view(), t),
                forall|b: int|
                    0 <= b < j ==> crate::tags::contains_str(
                        names.deep_view(),
                        #[trigger] tags.deep_view()[b],
                    ),
        decreases tags@.len() - j,
        {
            if !crate::tags::has_tag(&names, &tags[j]) {
                proof {
                    assert(tags.deep_view()[j as int] == tags@[j as int]@);
                    lemma_used_tags_step(orig, i as int);
                    assert(crate::tags::contains_str(
                        row_tags(orig[i as int]),
                        tags.deep_view()[j as int],
                    ));
                }
                let ghost before = names.deep_view();
                names.push(tags[j].clone());
                proof {
                    assert(names.deep_view() =~= before.push(tags@[j as int]@));
                    assert forall|t: Seq<char>|
                        crate::tags::contains_str(before, t) implies crate::tags::contains_str(
                        names.deep_view(),
                        t,
                    ) by {
                        let ii = choose|ii: int| 0 <= ii < before.len() && before[ii] == t;
                        assert(names.deep_view()[ii] == t);
                    }
                    assert(names.deep_view()[before.len() as int] == tags.deep_view()[j as int]);
                    assert forall|t: Seq<char>|
                        crate::tags::contains_str(all_used_tags(orig.take(i as int)), t) implies
                        crate::tags::contains_str(names.deep_view(), t) by {
                        assert(crate::tags::contains_str(before, t));
                        let ii = choose|ii: int| 0 <= ii < before.len() && before[ii] == t;
                        assert(names.deep_view()[ii] == t);
                    }
                }
            }
            j = j + 1;
        }
        proof {
            lemma_used_tags_step(orig, i as int);
            assert forall|t: Seq<char>|
                crate::tags::contains_str(all_used_tags(orig.take(i + 1)), t) implies
                crate::tags::contains_str(names.deep_view(), t) by {
                if crate::tags::contains_str(all_used_tags(orig.take(i as int)), t) {
                } else {
                    assert(crate::tags::contains_str(row_tags(orig[i as int]), t));
                    let b = choose|b: int|
                        0 <= b < row_tags(orig[i as int]).len() && row_tags(orig[i as int])[b]
                            == t;
                    assert(tags.deep_view()[b] == t);
                }
            }
            assert forall|a: int| 0 <= a < names@.len() implies crate::tags::contains_str(
                all_used_tags(orig.take(i + 1)),
                #[trigger] names.deep_view()[a],
            ) by {
                if crate::tags::contains_str(
                    all_used_tags(orig.take(i as int)),
                    names.deep_view()[a],
                ) {
                    lemma_used_tags_mono(orig, i as int, names.deep_view()[a]);
                }
            }
        }
        i = i + 1;
    }
    proof {
        assert(orig.take(orig.len() as int) =~= orig);
    }
    let sorted_names = crate::tags::sort_strings(&names);
    // sorting keeps exactly the gathered names, each once
    proof {
        broadcast use vstd::seq_lib::group_to_multiset_ensures;

        assert forall|t: Seq<char>|
            crate::tags::contains_str(names.deep_view(), t) implies crate::tags::contains_str(
            sorted_names.deep_view(),
            t,
        ) by {
            let a = choose|a: int|
                0 <= a < names.deep_view().len() && names.deep_view()[a] == t;
            assert(names.deep_view().contains(t));
            assert(names.deep_view().to_multiset().count(t) > 0);
            assert(sorted_names.deep_view().to_multiset().count(t) > 0);
            assert(sorted_names.deep_view().contains(t));
            let b = choose|b: int|
                0 <= b < sorted_names.deep_view().len() && sorted_names.deep_view()[b] == t;
        }
        assert forall|a: int| 0 <= a < sorted_names.deep_view().len() implies
            crate::tags::contains_str(
            names.deep_view(),
            #[trigger] sorted_names.deep_view()[a],
        ) by {
            let t = sorted_names.deep_view()[a];
            assert(sorted_names.deep_view().contains(t));
            assert(sorted_names.deep_view().to_multiset().count(t) > 0);
            assert(names.deep_view().to_multiset().count(t) > 0);
            assert(names.deep_view().contains(t));
            let b = choose|b: int|
                0 <= b < names.deep_view().len() && names.deep_view()[b] == t;
        }
        lemma_distinct_preserved(names.deep_view(), sorted_names.deep_view());
    }
    let mut out: Vec<(String, usize)> = Vec::new();
    let mut i2: usize = 0;
    while i2 < sorted_names.len()
        invariant
            orig == views_of(rows@),
            views_of(rows@) == db_rows(*conn),
            out@.len() == i2,
            i2 <= sorted_names@.len(),
            sorted_names.deep_view().len() == sorted_names@.len(),
            crate::tags::sorted_cp(sorted_names.deep_view()),
            forall|a: int, b: int|
                0 <= a < b < sorted_names@.len() ==> sorted_names.deep_view()[a]
                    != sorted_names.deep_view()[b],
            forall|a: int|
                0 <= a < sorted_names@.len() ==> crate::tags::contains_str(
                    names.deep_view(),
                    #[trigger] sorted_names.deep_view()[a],
                ),
            forall|t: Seq<char>|
                crate::tags::contains_str(names.deep_view(), t) ==> crate::tags::contains_str(
                    sorted_names.deep_view(),
                    t,
                ),
            forall|t: Seq<char>|
                crate::tags::contains_str(all_used_tags(orig), t) ==> crate::tags::contains_str(
                    names.deep_view(),
                    t,
                ),
            forall|a: int|
                0 <= a < names@.len() ==> crate::tags::contains_str(
                    all_used_tags(orig),
                    #[trigger] names.deep_view()[a],
                ),
            forall|a: int| 0 <= a < i2 ==> #[trigger] out@[a].0@ == sorted_names.deep_view()[a],
            forall|a: int|
                0 <= a < i2 ==> (tag_occurrences(orig, out@[a].0@) <= usize::MAX
                    ==> #[trigger] out@[a].1 == tag_occurrences(orig, out@[a].0@)),
        decreases sorted_names@.len() - i2,
    {
        proof {
            assert(sorted_names.deep_view()[i2 as int] == sorted_names@[i2 as int]@);
        }
        let name = sorted_names[i2].clone();
        let cnt = count_occurrences(&rows, &name);
        out.push((name, cnt));
        i2 = i2 + 1;
    }
    proof {
        assert forall|i: int, j: int| 0 <= i < j < out@.len() implies crate::strutil::cp_le(
            #[trigger] out@[i].0@,
            #[trigger] out@[j].0@,
        ) && out@[i].0@ != out@[j].0@ by {
            assert(out@[i].0@ == sorted_names.deep_view()[i]);
            assert(out@[j].0@ == sorted_names.deep_view()[j]);
        }
        assert forall|t: Seq<char>|
            crate::tags::contains_str(all_used_tags(db_rows(*conn)), t) implies exists|i: int|
            0 <= i < out@.len() && #[trigger] out@[i].0@ == t by {
            assert(crate::tags::contains_str(names.deep_view(), t));
            assert(crate::tags::contains_str(sorted_names.deep_view(), t));
            let b = choose|b: int|
                0 <= b < sorted_names.deep_view().len() && sorted_names.deep_view()[b] == t;
            assert(out@[b].0@ == t);
        }
        assert forall|i: int| 0 <= i < out@.len() implies crate::tags::contains_str(
            all_used_tags(db_rows(*conn)),
            #[trigger] out@[i].0@,
        ) by {
            assert(out@[i].0@ == sorted_names.deep_view()[i]);
            assert(crate::tags::contains_str(names.deep_view(), sorted_names.deep_view()[i]));
            let b = choose|b: int|
                0 <= b < names.deep_view().len() && names.deep_view()[b]
                    == sorted_names.deep_view()[i];
            assert(crate::tags::contains_str(all_used_tags(orig), names.deep_view()[b]));
        }
        assert(tag_counts_post(db_rows(*conn), out@));
    }
    Ok(out)
}

/// What the tag tally returns: names in strictly ascending order, each
/// a tag in use, with its exact occurrence count where that count fits
/// the machine word, and every tag in use listed.
pub open spec fn tag_counts_post(rows: Seq<RowV>, v: Seq<(String, usize)>) -> bool {
    &&& forall|i: int, j: int|
        0 <= i < j < v.len() ==> crate::strutil::cp_le(#[trigger] v[i].0@, #[trigger] v[j].0@)
            && v[i].0@ != v[j].0@
    &&& forall|i: int|
        0 <= i < v.len() ==> crate::tags::contains_str(all_used_tags(rows), #[trigger] v[i].0@)
    &&& forall|i: int|
        0 <= i < v.len() ==> (tag_occurrences(rows, #[trigger] v[i].0@) <= usize::MAX ==> v[i].1
            == tag_occurrences(rows, v[i].0@))
    &&& forall|t: Seq<char>|
        crate::tags::contains_str(all_used_tags(rows), t) ==> exists|i: int|
            0 <= i < v.len() && #[trigger] v[i].0@ == t
}

/// Every tag name in use anywhere, with repetition, row by row.
pub open spec fn all_used_tags(rows: Seq<RowV>) -> Seq<Seq<char>>
    decreases rows.len(),
{
    if rows.len() == 0 {
        Seq::empty()
    } else {
        all_used_tags(rows.drop_last()).add(row_tags(rows.last()))
    }
}

proof fn lemma_used_tags_step(rows: Seq<RowV>, i: int)
    requires
        0 <= i < rows.len(),
    ensures
        all_used_tags(rows.take(i + 1)) == all_used_tags(rows.take(i)).add(row_tags(rows[i])),
        forall|t: Seq<char>|
            crate::tags::contains_str(all_used_tags(rows.take(i + 1)), t)
                <==> (crate::tags::contains_str(all_used_tags(rows.take(i)), t)
                || crate::tags::contains_str(row_tags(rows[i]), t)),
{
    assert(rows.take(i + 1).drop_last() =~= rows.take(i));
    assert(rows.take(i + 1).last() == rows[i]);
    let a = all_used_tags(rows.take(i));
    let b = row_tags(rows[i]);
    assert forall|t: Seq<char>|
        crate::tags::contains_str(a.add(b), t) <==> (crate::tags::contains_str(a, t)
            || crate::tags::contains_str(b, t)) by {
        if crate::tags::contains_str(a, t) {
            let k = choose|k: int| 0 <= k < a.len() && a[k] == t;
            assert(a.add(b)[k] == t);
        }
        if crate::tags::contains_str(b, t) {
            let k = choose|k: int| 0 <= k < b.len() && b[k] == t;
            assert(a.add(b)[a.len() + k] == t);
        }
        if crate::tags::contains_str(a.add(b), t) {
            let k = choose|k: int| 0 <= k < a.add(b).len() && a.add(b)[k] == t;
            if k < a.len() {
                assert(a[k] == t);
            } else {
                assert(b[k - a.len()] == t);
            }
        }
    }
}

proof fn lemma_used_tags_mono(rows: Seq<RowV>, i: int, t: Seq<char>)
    requires
        0 <= i < rows.len(),
        crate::tags::contains_str(all_used_tags(rows.take(i)), t),
    ensures
        crate::tags::contains_str(all_used_tags(rows.take(i + 1)), t),
{
    lemma_used_tags_step(rows, i);
    let a = all_used_tags(rows.take(i));
    let k = choose|k: int| 0 <= k < a.len() && a[k] == t;
    assert(all_used_tags(rows.take(i + 1))[k] == t);
}

/// A sequence with the same multiset as a duplicate-free one is itself
/// duplicate free.
proof fn lemma_distinct_preserved(a: Seq<Seq<char>>, b: Seq<Seq<char>>)
    requires
        forall|i: int, j: int| 0 <= i < j < a.len() ==> a[i] != a[j],
        a.to_multiset() == b.to_multiset(),
    ensures
        forall|i: int, j: int| 0 <= i < j < b.len() ==> b[i] != b[j],
{
    broadcast use vstd::seq_lib::group_to_multiset_ensures;

    assert(a.no_duplicates());
    a.lemma_multiset_has_no_duplicates();
    b.lemma_multiset_has_no_duplicates_conv();
    assert(b.no_duplicates());
}

/// Once an article is stored, its fingerprint is taken: a second
/// insertion under the same fingerprint finds it present, and so, by
/// the insertion contract, can only be refused with the store left as
/// it stands.
pub proof fn lemma_stored_hash_blocks_reinsert(
    rows: Seq<RowV>,
    a: crate::article::NewArticleV,
    id: i64,
    now: i64,
)
    ensures
        contains_hash(rows.push(new_row_spec(a, id, now)), a.hash),
{
    let stored = rows.push(new_row_spec(a, id, now));
    assert(stored[rows.len() as int].hash == a.hash);
}

/// A stored article's reading carries the row's flags, tags and titles
/// unchanged; only the saved time can differ, and only by repair.
pub proof fn lemma_reading_keeps_fields(r: RowV, a: ArticleV)
    requires
        reads_as(r, a),
    ensures
        a.read == r.read,
        a.archived == r.archived,
        a.starred == r.starred,
        a.title == r.title,
        a.id == r.id,
        a.hash == r.hash,
        a.tags == crate::article::tags_of_column(r.tags_json),
{
}

/// An element of a sequence is an element of any sequence with the same
/// multiset.
proof fn lemma_multiset_member(a: Seq<RowV>, b: Seq<RowV>, i: int)
    requires
        a.to_multiset() == b.to_multiset(),
        0 <= i < a.len(),
    ensures
        exists|j: int| 0 <= j < b.len() && b[j] == a[i],
{
    broadcast use vstd::seq_lib::group_to_multiset_ensures;

    assert(a.contains(a[i]));
    assert(a.to_multiset().count(a[i]) > 0);
    assert(b.to_multiset().count(a[i]) > 0);
    assert(b.contains(a[i]));
    let j = choose|j: int| 0 <= j < b.len() && b[j] == a[i];
}

/// A row a filter admitted satisfies the filter.
proof fn lemma_matching_member(
    rows: Seq<RowV>,
    all: bool,
    archived: bool,
    starred: bool,
    required: Seq<Seq<char>>,
    r: RowV,
)
    requires
        exists|j: int|
            0 <= j < matching_rows(rows, all, archived, starred, required).len()
                && matching_rows(rows, all, archived, starred, required)[j] == r,
    ensures
        crate::listing::row_matches(r, all, archived, starred, required),
    decreases rows.len(),
{
    reveal_with_fuel(Seq::filter, 2);
    if rows.len() > 0 {
        let m = matching_rows(rows, all, archived, starred, required);
        let prev = matching_rows(rows.drop_last(), all, archived, starred, required);
        let j = choose|j: int| 0 <= j < m.len() && m[j] == r;
        if crate::listing::row_matches(rows.last(), all, archived, starred, required) {
            if j < m.len() - 1 {
                assert(prev[j] == r);
                lemma_matching_member(rows.drop_last(), all, archived, starred, required, r);
            }
        } else {
            assert(prev[j] == r);
            lemma_matching_member(rows.drop_last(), all, archived, starred, required, r);
        }
    }
}

/// Every article a listing returns satisfies the listing's filter: with
/// everything off it is unread and unarchived, with the archived toggle
/// it is archived, with the starred toggle it is starred, and its tag
/// list covers every required tag.
pub proof fn lemma_listing_respects_filter(
    rows: Seq<RowV>,
    all: bool,
    archived: bool,
    starred: bool,
    required: Seq<Seq<char>>,
    ord: crate::listing::RowOrder,
    limit: i64,
    out: Seq<ArticleV>,
)
    requires
        listing_post(rows, all, archived, starred, required, ord, limit, out),
    ensures
        forall|i: int|
            0 <= i < out.len() ==> ((!all ==> !(#[trigger] out[i]).read) && (!all && !archived
                ==> !out[i].archived) && (archived ==> out[i].archived) && (starred
                ==> out[i].starred) && crate::tags::has_all_tags_spec(out[i].tags, required)),
{
    let sorted = choose|sorted: Seq<RowV>|
        listed_via(sorted, rows, all, archived, starred, required, ord, limit, out);
    assert forall|i: int|
        0 <= i < out.len() implies ((!all ==> !(#[trigger] out[i]).read) && (!all && !archived
        ==> !out[i].archived) && (archived ==> out[i].archived) && (starred ==> out[i].starred)
        && crate::tags::has_all_tags_spec(out[i].tags, required)) by {
        assert(reads_as(sorted[i], out[i]));
        lemma_multiset_member(
            sorted,
            matching_rows(rows, all, archived, starred, required),
            i,
        );
        lemma_matching_member(rows, all, archived, starred, required, sorted[i]);
        lemma_reading_keeps_fields(sorted[i], out[i]);
    }
}

/// A listing sorted on a text field comes back in that field's order:
/// ascending when the effective direction is ascending, descending
/// otherwise.
pub proof fn lemma_listing_title_order(
    rows: Seq<RowV>,
    all: bool,
    archived: bool,
    starred: bool,
    required: Seq<Seq<char>>,
    asc: bool,
    limit: i64,
    out: Seq<ArticleV>,
)
    requires
        listing_post(
            rows,
            all,
            archived,
            starred,
            required,
            crate::listing::RowOrder::ByField { field: crate::listing::SortField::Title, asc },
            limit,
            out,
        ),
    ensures
        forall|i: int, j: int|
            0 <= i < j < out.len() ==> if asc {
                crate::listing::opt_text_le(#[trigger] out[i].title, #[trigger] out[j].title)
            } else {
                crate::listing::opt_text_le(out[j].title, out[i].title)
            },
{
    let ord = crate::listing::RowOrder::ByField {
        field: crate::listing::SortField::Title,
        asc,
    };
    let sorted = choose|sorted: Seq<RowV>|
        listed_via(sorted, rows, all, archived, starred, required, ord, limit, out);
    assert forall|i: int, j: int| 0 <= i < j < out.len() implies (if asc {
        crate::listing::opt_text_le(#[trigger] out[i].title, #[trigger] out[j].title)
    } else {
        crate::listing::opt_text_le(out[j].title, out[i].title)
    }) by {
        assert(crate::listing::row_le(sorted[i], sorted[j], ord));
        assert(reads_as(sorted[i], out[i]));
        assert(reads_as(sorted[j], out[j]));
        lemma_reading_keeps_fields(sorted[i], out[i]);
        lemma_reading_keeps_fields(sorted[j], out[j]);
    }
}

/// Flag transitions are idempotent: applying one a second time changes
/// nothing more.
pub proof fn lemma_flag_idempotent(r: RowV, op: FlagOp)
    ensures
        apply_flag(apply_flag(r, op), op) == apply_flag(r, op),
{
}

/// Restoring a row from the archive leaves it unarchived and unread,
/// whatever it held before.
pub proof fn lemma_restore_resets(r: RowV)
    ensures
        apply_flag(r, FlagOp::Archived(false)).archived == false,
        apply_flag(r, FlagOp::Archived(false)).read == false,
{
}

/// The note an edit leaves: cleared, replaced, appended under a line
/// break, or left as it stands when no text is given.
pub open spec fn composed_note(
    existing: Option<Seq<char>>,
    text: Option<Seq<char>>,
    append: bool,
    clear: bool,
) -> Option<Seq<char>> {
    if clear {
        None
    } else {
        match text {
            Some(t) => if append {
                match existing {
                    Some(e) => Some(e.push('\n').add(t)),
                    None => Some(t),
                }
            } else {
                Some(t)
            },
            None => existing,
        }
    }
}

/// Composes the new note of an article from the edit's parts.
pub fn compose_note(
    existing: &Option<String>,
    text: Option<String>,
    append: bool,
    clear: bool,
) -> (r: Option<String>)
    ensures
        r.deep_view() == composed_note(existing.deep_view(), text.deep_view(), append, clear),
{
    if clear {
        return None;
    }
    match text {
        Some(t) => {
            if append {
                match existing {
                    Some(e) => {
                        let mut s = e.clone();
                        crate::strutil::push_char(&mut s, '\n');
                        s.append(t.as_str());
                        Some(s)
                    },
                    None => Some(t),
                }
            } else {
                Some(t)
            }
        },
        None => crate::article::clone_opt_string(existing),
    }
}

/// What a sample returns: some choice of distinct admitted rows.
pub open spec fn sample_post(rows: Seq<RowV>, all: bool, count: i64, out: Seq<ArticleV>) -> bool {
    exists|pick: Seq<int>|
        sample_via(
            pick,
            matching_rows(rows, all, false, false, Seq::<Seq<char>>::empty()),
            count,
            out,
        )
}

/// How a sample's output arises from the admitted rows through one
/// witness choice of distinct positions.
pub open spec fn sample_via(
    pick: Seq<int>,
    m: Seq<RowV>,
    count: i64,
    out: Seq<ArticleV>,
) -> bool {
    &&& out.len() == limit_clamp(count, m.len() as int)
    &&& pick.len() == out.len()
    &&& forall|a: int, b: int| 0 <= a < b < pick.len() ==> pick[a] != pick[b]
    &&& forall|a: int|
        0 <= a < out.len() ==> 0 <= #[trigger] pick[a] < m.len() && reads_as(m[pick[a]], out[a])
}

} // verus!
