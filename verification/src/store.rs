//! The storage engine boundary. The whole table is modelled as the
//! sequence of its rows in ascending id order, named by `db_rows`; every
//! statement the library runs against the engine is wrapped here with a
//! contract over that sequence, and nothing else in the crate touches
//! the engine. The model treats the connection value as owning the
//! database state — one connection, one process, one writer; a second
//! connection onto the same file falls outside it.

use vstd::prelude::*;

use crate::article::{StoredRow, RowV, views_of};
use crate::errors::StashError;

verus! {

#[verifier::external_type_specification]
#[verifier::external_body]
pub struct ExConnection(rusqlite::Connection);

/// The rows of the article table, in ascending id order.
pub uninterp spec fn db_rows(conn: rusqlite::Connection) -> Seq<RowV>;

/// Whether some row carries this fingerprint.
pub open spec fn contains_hash(rows: Seq<RowV>, hash: Seq<char>) -> bool {
    exists|i: int| 0 <= i < rows.len() && rows[i].hash == hash
}

/// The largest id in use, or zero for an empty table.
pub open spec fn max_row_id(rows: Seq<RowV>) -> int
    decreases rows.len(),
{
    if rows.len() == 0 {
        0
    } else if rows.last().id as int >= max_row_id(rows.drop_last()) {
        rows.last().id as int
    } else {
        max_row_id(rows.drop_last())
    }
}

/// The id the engine hands the next inserted row: one past the largest
/// in use, or one for an empty table.
pub open spec fn next_row_id(rows: Seq<RowV>) -> int {
    if rows.len() == 0 {
        1
    } else {
        max_row_id(rows) + 1
    }
}

/// Whether ids strictly ascend, as a selection ordered by id returns them.
pub open spec fn ids_ascending(rows: Seq<RowV>) -> bool {
    forall|i: int, j: int| 0 <= i < j < rows.len() ==> rows[i].id < rows[j].id
}

/// Whether the new table is the old one with this row placed somewhere:
/// what an insertion guarantees even where the fresh id's position in
/// the id order is not pinned.
pub open spec fn inserted_somewhere(old_rows: Seq<RowV>, new_rows: Seq<RowV>, row: RowV) -> bool {
    exists|k: int| 0 <= k <= old_rows.len() && new_rows == old_rows.insert(k, row)
}

/// Relies on `chrono::Utc::now`: the present moment as Unix seconds.
/// Nothing is promised of the value.
#[verifier::external_body]
pub fn now_ts() -> i64 {
    chrono::Utc::now().timestamp()
}

/// Relies on the engine's random number function, read through
/// `rusqlite::Connection::query_row`: a draw from the engine's
/// generator, or nothing on a failed statement. The value is random, so
/// nothing is promised of it.
#[verifier::external_body]
pub fn random_seed(conn: &rusqlite::Connection) -> Option<i64> {
    conn.query_row("SELECT random()", [], |row| row.get(0)).ok()
}

/// Relies on `rusqlite::Connection::open_in_memory` and `execute_batch`:
/// a fresh in-memory database holds no rows once the article table is
/// created.
#[verifier::external_body]
pub fn open_memory_store() -> (r: Result<rusqlite::Connection, StashError>)
    ensures
        r is Ok ==> db_rows(r.unwrap()) == Seq::<RowV>::empty(),
{
    let conn = rusqlite::Connection::open_in_memory()
        .map_err(|e| StashError::StoreUnavailable { message: e.to_string() })?;
    conn.execute_batch(
        "CREATE TABLE IF NOT EXISTS articles (id INTEGER PRIMARY KEY, hash TEXT NOT NULL UNIQUE, url TEXT NOT NULL, canonical_url TEXT NOT NULL, title TEXT, site TEXT, description TEXT, favicon_url TEXT, content_markdown TEXT, saved_at INTEGER NOT NULL, last_opened_at INTEGER, read INTEGER NOT NULL DEFAULT 0, archived INTEGER NOT NULL DEFAULT 0, starred INTEGER NOT NULL DEFAULT 0, note TEXT, tags TEXT NOT NULL DEFAULT '[]'); CREATE UNIQUE INDEX IF NOT EXISTS articles_hash_unique ON articles (hash);",
    ).map_err(|e| StashError::StoreUnavailable { message: e.to_string() })?;
    Ok(conn)
}

/// Relies on `rusqlite::Connection::open` and `execute_batch`: opens the
/// database file, creating the article table if it is missing. Nothing
/// is promised of the rows an existing file holds.
#[verifier::external_body]
pub fn open_store(path: &str) -> (r: Result<rusqlite::Connection, StashError>) {
    let conn = rusqlite::Connection::open(path)
        .map_err(|e| StashError::StoreUnavailable { message: e.to_string() })?;
    conn.execute_batch(
        "CREATE TABLE IF NOT EXISTS articles (id INTEGER PRIMARY KEY, hash TEXT NOT NULL UNIQUE, url TEXT NOT NULL, canonical_url TEXT NOT NULL, title TEXT, site TEXT, description TEXT, favicon_url TEXT, content_markdown TEXT, saved_at INTEGER NOT NULL, last_opened_at INTEGER, read INTEGER NOT NULL DEFAULT 0, archived INTEGER NOT NULL DEFAULT 0, starred INTEGER NOT NULL DEFAULT 0, note TEXT, tags TEXT NOT NULL DEFAULT '[]'); CREATE UNIQUE INDEX IF NOT EXISTS articles_hash_unique ON articles (hash);",
    ).map_err(|e| StashError::StoreUnavailable { message: e.to_string() })?;
    Ok(conn)
}

#[verifier::external_type_specification]
#[verifier::external_body]
pub struct ExSqlRow<'a>(rusqlite::Row<'a>);

#[verifier::external_type_specification]
#[verifier::external_body]
pub struct ExSqlError(rusqlite::Error);

/// Relies on `rusqlite::Row::get`: reads the columns of one selected
/// row, in the column order of the selection below, into the library's
/// row type. Nothing is promised here; `load_all` states what the whole
/// selection returns.
#[verifier::external_body]
fn read_row(row: &rusqlite::Row<'_>) -> (r: Result<StoredRow, rusqlite::Error>) {
    Ok(StoredRow {
        id: row.get(0)?, hash: row.get(1)?, url: row.get(2)?,
        canonical_url: row.get(3)?, title: row.get(4)?, site: row.get(5)?,
        description: row.get(6)?, favicon_url: row.get(7)?,
        content_markdown: row.get(8)?, saved_at: row.get(9)?,
        last_opened_at: row.get(10)?, read: row.get(11)?, archived: row.get(12)?,
        starred: row.get(13)?, note: row.get(14)?, tags_json: row.get(15)?,
    })
}

/// Relies on `rusqlite::Connection::prepare` and `Statement::query_map`:
/// a selection ordered by id returns every row, ids strictly ascending.
#[verifier::external_body]
pub fn load_all(conn: &rusqlite::Connection) -> (r: Result<Vec<StoredRow>, StashError>)
    ensures
        r is Ok ==> views_of(r.unwrap()@) == db_rows(*conn),
        r is Ok ==> ids_ascending(db_rows(*conn)),
        r is Err ==> r.unwrap_err() is StoreUnavailable,
{
    let out = (|| -> rusqlite::Result<Vec<StoredRow>> {
        conn.prepare(
            "SELECT id, hash, url, canonical_url, title, site, description, favicon_url, content_markdown, saved_at, last_opened_at, read, archived, starred, note, tags FROM articles ORDER BY id",
        )?.query_map([], |row| read_row(row))?.collect()
    })();
    out.map_err(|e| StashError::StoreUnavailable { message: e.to_string() })
}

/// Relies on `rusqlite::Connection::execute` and `last_insert_rowid`:
/// a single INSERT stores one row under a fresh id, or fails whole — on
/// a duplicate fingerprint with the unique-constraint code. While the
/// largest id in use is below the integer maximum, the engine picks one
/// past it, so the row lands at the end of the id order; once an id of
/// `i64::MAX` is stored, the engine falls back to unused ids drawn at
/// random, so only the ordered placement is promised then. The given
/// row's id field is ignored.
#[verifier::external_body]
pub fn insert_row(conn: &mut rusqlite::Connection, r: &StoredRow) -> (res: Result<i64, StashError>)
    ensures
        match res {
            Ok(id) => {
                &&& !contains_hash(db_rows(*old(conn)), r.hash@)
                &&& forall|i: int|
                    0 <= i < db_rows(*old(conn)).len() ==> #[trigger] db_rows(*old(conn))[i].id
                        != id
                &&& inserted_somewhere(
                    db_rows(*old(conn)),
                    db_rows(*final(conn)),
                    RowV { id: id, ..r@ },
                )
                &&& max_row_id(db_rows(*old(conn))) < i64::MAX ==> {
                    &&& db_rows(*final(conn)) == db_rows(*old(conn)).push(RowV { id: id, ..r@ })
                    &&& forall|i: int|
                        0 <= i < db_rows(*old(conn)).len() ==> db_rows(*old(conn))[i].id < id
                    &&& id == next_row_id(db_rows(*old(conn)))
                }
            },
            Err(e) => {
                &&& db_rows(*final(conn)) == db_rows(*old(conn))
                &&& match e {
                    StashError::ConstraintViolation { hash } => hash@ == r.hash@ && contains_hash(
                        db_rows(*old(conn)),
                        r.hash@,
                    ),
                    StashError::StoreUnavailable { .. } => true,
                    _ => false,
                }
            },
        },
{
    let res = conn.execute(
        "INSERT INTO articles (hash, url, canonical_url, title, site, description, favicon_url, content_markdown, saved_at, last_opened_at, read, archived, starred, note, tags) VALUES (?1, ?2, ?3, ?4, ?5, ?6, ?7, ?8, ?9, ?10, ?11, ?12, ?13, ?14, ?15)",
        (&r.hash, &r.url, &r.canonical_url, &r.title, &r.site, &r.description, &r.favicon_url,
        &r.content_markdown, &r.saved_at, &r.last_opened_at, &r.read, &r.archived, &r.starred,
        &r.note, &r.tags_json),
    );
    match res {
        Ok(_) => Ok(conn.last_insert_rowid()),
        Err(rusqlite::Error::SqliteFailure(f, m)) if f.code
            == rusqlite::ErrorCode::ConstraintViolation => Err(StashError::ConstraintViolation {
            hash: r.hash.clone(),
        }),
        Err(e) => Err(StashError::StoreUnavailable { message: e.to_string() }),
    }
}

/// Relies on `rusqlite::Connection::execute`: a single UPDATE keyed on
/// the id rewrites exactly the row under that id, if there is one, and
/// reports whether one was there; a failed statement changes nothing.
#[verifier::external_body]
pub fn update_row(conn: &mut rusqlite::Connection, r: &StoredRow) -> (res: Result<bool, StashError>)
    ensures
        match res {
            Ok(true) => exists|k: int|
                0 <= k < db_rows(*old(conn)).len() && db_rows(*old(conn))[k].id == r.id && db_rows(
                    *final(conn),
                ) == db_rows(*old(conn)).update(k, r@),
            Ok(false) => {
                &&& db_rows(*final(conn)) == db_rows(*old(conn))
                &&& forall|i: int|
                    0 <= i < db_rows(*old(conn)).len() ==> db_rows(*old(conn))[i].id != r.id
            },
            Err(e) => db_rows(*final(conn)) == db_rows(*old(conn)) && e is StoreUnavailable,
        },
{
    let res = conn.execute(
        "UPDATE articles SET hash = ?2, url = ?3, canonical_url = ?4, title = ?5, site = ?6, description = ?7, favicon_url = ?8, content_markdown = ?9, saved_at = ?10, last_opened_at = ?11, read = ?12, archived = ?13, starred = ?14, note = ?15, tags = ?16 WHERE id = ?1",
        (&r.id, &r.hash, &r.url, &r.canonical_url, &r.title, &r.site, &r.description,
        &r.favicon_url, &r.content_markdown, &r.saved_at, &r.last_opened_at, &r.read,
        &r.archived, &r.starred, &r.note, &r.tags_json),
    );
    match res {
        Ok(n) => Ok(n > 0),
        Err(e) => Err(StashError::StoreUnavailable { message: e.to_string() }),
    }
}

/// Relies on `rusqlite::Connection::execute`: a single DELETE keyed on
/// the id removes exactly the row under that id, if there is one, and
/// reports whether one was there; a failed statement changes nothing.
#[verifier::external_body]
pub fn delete_row(conn: &mut rusqlite::Connection, id: i64) -> (res: Result<bool, StashError>)
    ensures
        match res {
            Ok(true) => exists|k: int|
                0 <= k < db_rows(*old(conn)).len() && db_rows(*old(conn))[k].id == id && db_rows(
                    *final(conn),
                ) == db_rows(*old(conn)).remove(k),
            Ok(false) => {
                &&& db_rows(*final(conn)) == db_rows(*old(conn))
                &&& forall|i: int|
                    0 <= i < db_rows(*old(conn)).len() ==> db_rows(*old(conn))[i].id != id
            },
            Err(e) => db_rows(*final(conn)) == db_rows(*old(conn)) && e is StoreUnavailable,
        },
{
    match conn.execute("DELETE FROM articles WHERE id = ?1", (&id,)) {
        Ok(n) => Ok(n > 0),
        Err(e) => Err(StashError::StoreUnavailable { message: e.to_string() }),
    }
}

} // verus!
