//! Query composition: which rows a listing admits, and in what order it
//! returns them. All predicates combine by conjunction; each sort field
//! carries its own default direction, which a reverse flag flips.

use vstd::prelude::*;
use vstd::multiset::Multiset;

use crate::article::{StoredRow, RowV, clone_row, views_of};
use crate::strutil::{lex_le_by, lex_le_by_exec, lemma_lex_le_total, lemma_lex_le_trans, str_to_chars};
use crate::tags::{has_all_tags_spec, has_all_tags};
use crate::tagjson::decode_tags_or_empty;
use crate::article::tags_of_column;

verus! {

/// The sortable fields of a listing.
pub enum SortField {
    Time,
    Title,
    Site,
    Read,
    Star,
}

/// Reads a sort-field name; an unknown name is no field.
pub fn parse_sort_field(s: &str) -> (r: Option<SortField>)
    ensures
        r == spec_sort_field(s@),
{
    let v = str_to_chars(s);
    let t = crate::strutil::chars_to_string(&v);
    if t.eq(&String::from_str("time")) {
        proof {
            reveal_strlit("time");
        }
        Some(SortField::Time)
    } else if t.eq(&String::from_str("title")) {
        proof {
            reveal_strlit("title");
        }
        Some(SortField::Title)
    } else if t.eq(&String::from_str("site")) {
        proof {
            reveal_strlit("site");
        }
        Some(SortField::Site)
    } else if t.eq(&String::from_str("read")) {
        proof {
            reveal_strlit("read");
        }
        Some(SortField::Read)
    } else if t.eq(&String::from_str("star")) {
        proof {
            reveal_strlit("star");
        }
        Some(SortField::Star)
    } else {
        None
    }
}

/// The field a sort name denotes.
pub open spec fn spec_sort_field(s: Seq<char>) -> Option<SortField> {
    if s == "time"@ {
        Some(SortField::Time)
    } else if s == "title"@ {
        Some(SortField::Title)
    } else if s == "site"@ {
        Some(SortField::Site)
    } else if s == "read"@ {
        Some(SortField::Read)
    } else if s == "star"@ {
        Some(SortField::Star)
    } else {
        None
    }
}

/// Whether a row passes the scope toggles: unless everything is asked
/// for, only unread rows, and only unarchived ones unless archived rows
/// are requested; requesting archived or starred restricts to those.
pub open spec fn scope_matches(r: RowV, all: bool, archived: bool, starred: bool) -> bool {
    &&& (!all ==> !r.read)
    &&& (!all && !archived ==> !r.archived)
    &&& (archived ==> r.archived)
    &&& (starred ==> r.starred)
}

/// Whether a row passes the scope and carries every required tag.
pub open spec fn row_matches(
    r: RowV,
    all: bool,
    archived: bool,
    starred: bool,
    required: Seq<Seq<char>>,
) -> bool {
    scope_matches(r, all, archived, starred) && has_all_tags_spec(
        tags_of_column(r.tags_json),
        required,
    )
}

/// Decides the scope toggles on one stored row.
pub fn scope_matches_exec(r: &StoredRow, all: bool, archived: bool, starred: bool) -> (res: bool)
    ensures
        res == scope_matches(r@, all, archived, starred),
{
    (all || !r.read) && (all || archived || !r.archived) && (!archived || r.archived) && (!starred
        || r.starred)
}

/// Decides scope and tag requirements on one stored row.
pub fn row_matches_exec(
    r: &StoredRow,
    all: bool,
    archived: bool,
    starred: bool,
    required: &Vec<String>,
) -> (res: bool)
    ensures
        res == row_matches(r@, all, archived, starred, required.deep_view()),
{
    if !scope_matches_exec(r, all, archived, starred) {
        return false;
    }
    let tags = decode_tags_or_empty(r.tags_json.as_str());
    has_all_tags(&tags, required)
}

/// How a listing orders its rows.
pub enum RowOrder {
    /// One sort field, ascending or not.
    ByField { field: SortField, asc: bool },
    /// Starred rows first, then most recently saved first.
    StarredThenTime,
}

/// Ascending comparison on one field: saved time, title or site folded
/// case-blind with absent text first, or a flag with clear before set.
pub open spec fn field_le(a: RowV, b: RowV, field: SortField) -> bool {
    match field {
        SortField::Time => a.saved_at <= b.saved_at,
        SortField::Title => opt_text_le(a.title, b.title),
        SortField::Site => opt_text_le(a.site, b.site),
        SortField::Read => !a.read || b.read,
        SortField::Star => !a.starred || b.starred,
    }
}

/// Absent text sorts before any text; present text by folded order.
pub open spec fn opt_text_le(a: Option<Seq<char>>, b: Option<Seq<char>>) -> bool {
    match (a, b) {
        (Option::None, _) => true,
        (Option::Some(x), Option::None) => false,
        (Option::Some(x), Option::Some(y)) => lex_le_by(x, y, true),
    }
}

/// The ordering a listing uses: a field read in its effective direction,
/// or the starred-then-newest default.
pub open spec fn row_le(a: RowV, b: RowV, ord: RowOrder) -> bool {
    match ord {
        RowOrder::ByField { field, asc } => if asc {
            field_le(a, b, field)
        } else {
            field_le(b, a, field)
        },
        RowOrder::StarredThenTime => if a.starred != b.starred {
            a.starred
        } else {
            a.saved_at >= b.saved_at
        },
    }
}

/// One of the two orders always holds.
pub proof fn lemma_row_le_total(a: RowV, b: RowV, ord: RowOrder)
    ensures
        row_le(a, b, ord) || row_le(b, a, ord),
{
    match ord {
        RowOrder::ByField { field, asc } => match field {
            SortField::Title => {
                if a.title is Some && b.title is Some {
                    lemma_lex_le_total(a.title.unwrap(), b.title.unwrap(), true);
                }
            },
            SortField::Site => {
                if a.site is Some && b.site is Some {
                    lemma_lex_le_total(a.site.unwrap(), b.site.unwrap(), true);
                }
            },
            _ => {},
        },
        RowOrder::StarredThenTime => {},
    }
}

/// Chained orders compose.
pub proof fn lemma_row_le_trans(a: RowV, b: RowV, c: RowV, ord: RowOrder)
    requires
        row_le(a, b, ord),
        row_le(b, c, ord),
    ensures
        row_le(a, c, ord),
{
    match ord {
        RowOrder::ByField { field, asc } => match field {
            SortField::Title => {
                if a.title is Some && b.title is Some && c.title is Some {
                    if asc {
                        lemma_lex_le_trans(a.title.unwrap(), b.title.unwrap(), c.title.unwrap(), true);
                    } else {
                        lemma_lex_le_trans(c.title.unwrap(), b.title.unwrap(), a.title.unwrap(), true);
                    }
                }
            },
            SortField::Site => {
                if a.site is Some && b.site is Some && c.site is Some {
                    if asc {
                        lemma_lex_le_trans(a.site.unwrap(), b.site.unwrap(), c.site.unwrap(), true);
                    } else {
                        lemma_lex_le_trans(c.site.unwrap(), b.site.unwrap(), a.site.unwrap(), true);
                    }
                }
            },
            _ => {},
        },
        RowOrder::StarredThenTime => {},
    }
}

fn opt_text_le_exec(a: &Option<String>, b: &Option<String>) -> (r: bool)
    ensures
        r == opt_text_le(a.deep_view(), b.deep_view()),
{
    match (a, b) {
        (Option::None, _) => true,
        (Option::Some(x), Option::None) => false,
        (Option::Some(x), Option::Some(y)) => {
            let va = str_to_chars(x.as_str());
            let vb = str_to_chars(y.as_str());
            lex_le_by_exec(&va, &vb, true)
        },
    }
}

/// Decides the listing order between two stored rows.
pub fn row_le_exec(a: &StoredRow, b: &StoredRow, ord: &RowOrder) -> (r: bool)
    ensures
        r == row_le(a@, b@, *ord),
{
    match ord {
        RowOrder::ByField { field, asc } => {
            let (x, y) = if *asc {
                (a, b)
            } else {
                (b, a)
            };
            match field {
                SortField::Time => x.saved_at <= y.saved_at,
                SortField::Title => opt_text_le_exec(&x.title, &y.title),
                SortField::Site => opt_text_le_exec(&x.site, &y.site),
                SortField::Read => !x.read || y.read,
                SortField::Star => !x.starred || y.starred,
            }
        },
        RowOrder::StarredThenTime => {
            if a.starred != b.starred {
                a.starred
            } else {
                a.saved_at >= b.saved_at
            }
        },
    }
}

/// Whether a row sequence is ordered for the given listing.
pub open spec fn rows_sorted(s: Seq<RowV>, ord: RowOrder) -> bool {
    forall|i: int, j: int| 0 <= i < j < s.len() ==> row_le(#[trigger] s[i], #[trigger] s[j], ord)
}

fn row_lower_bound(r: &Vec<StoredRow>, x: &StoredRow, ord: &RowOrder) -> (p: usize)
    ensures
        p <= r@.len(),
        forall|k: int| 0 <= k < p ==> row_le(#[trigger] r@[k]@, x@, *ord),
        p < r@.len() ==> !row_le(r@[p as int]@, x@, *ord),
{
    let mut p: usize = 0;
    while p < r.len()
        invariant
            p <= r@.len(),
            forall|k: int| 0 <= k < p ==> row_le(#[trigger] r@[k]@, x@, *ord),
        decreases r@.len() - p,
    {
        if !row_le_exec(&r[p], x, ord) {
            return p;
        }
        p = p + 1;
    }
    p
}

/// Sorts rows for a listing. The result holds exactly the given rows,
/// with multiplicity, in the listing's order.
pub fn sort_rows(v: Vec<StoredRow>, ord: &RowOrder) -> (r: Vec<StoredRow>)
    ensures
        rows_sorted(views_of(r@), *ord),
        views_of(r@).to_multiset() == views_of(v@).to_multiset(),
        r@.len() == v@.len(),
{
    let ghost vw = views_of(v@);
    let mut r: Vec<StoredRow> = Vec::new();
    let mut i: usize = 0;
    proof {
        broadcast use vstd::seq_lib::group_to_multiset_ensures;

        assert(vw.take(0) =~= Seq::<RowV>::empty());
        assert(views_of(r@) =~= Seq::<RowV>::empty());
        assert(views_of(r@).to_multiset() =~= vw.take(0).to_multiset());
    }
    while i < v.len()
        invariant
            vw == views_of(v@),
            vw.len() == v@.len(),
            i <= v@.len(),
            r@.len() == i,
            rows_sorted(views_of(r@), *ord),
            r@.map_values(|x: StoredRow| x@).to_multiset() == vw.take(i as int).to_multiset(),
        decreases v@.len() - i,
    {
        let x = clone_row(&v[i]);
        proof {
            assert(x@ == vw[i as int]);
        }
        let p = row_lower_bound(&r, &x, ord);
        let ghost old_r = views_of(r@);
        let ghost xv = x@;
        r.insert(p, x);
        proof {
            broadcast use vstd::seq_lib::group_to_multiset_ensures;

            let nr = views_of(r@);
            assert(nr =~= old_r.insert(p as int, xv));
            if p < old_r.len() {
                lemma_row_le_total(old_r[p as int], xv, *ord);
            }
            assert forall|a: int, b: int| 0 <= a < b < nr.len() implies row_le(
                #[trigger] nr[a],
                #[trigger] nr[b],
                *ord,
            ) by {
                if b < p {
                    assert(nr[a] == old_r[a] && nr[b] == old_r[b]);
                } else if a < p && b == p {
                    assert(nr[a] == old_r[a] && nr[b] == xv);
                } else if a < p && b > p {
                    assert(nr[a] == old_r[a] && nr[b] == old_r[b - 1]);
                    if !(b - 1 > a) {
                        assert(b - 1 == a);
                        lemma_row_le_trans(old_r[a], xv, xv, *ord);
                    }
                } else if a == p && b > p {
                    assert(nr[a] == xv && nr[b] == old_r[b - 1]);
                    assert(row_le(xv, old_r[p as int], *ord));
                    if b - 1 > p as int {
                        lemma_row_le_trans(xv, old_r[p as int], old_r[b - 1], *ord);
                    }
                } else {
                    assert(a > p);
                    assert(nr[a] == old_r[a - 1] && nr[b] == old_r[b - 1]);
                }
            }
            assert(old_r.insert(p as int, xv) =~= old_r.take(p as int).add(
                seq![xv].add(old_r.skip(p as int)),
            ));
            vstd::seq_lib::lemma_multiset_commutative(
                old_r.take(p as int),
                seq![xv].add(old_r.skip(p as int)),
            );
            vstd::seq_lib::lemma_multiset_commutative(seq![xv], old_r.skip(p as int));
            vstd::seq_lib::lemma_multiset_commutative(old_r.take(p as int), old_r.skip(p as int));
            assert(old_r.take(p as int).add(old_r.skip(p as int)) =~= old_r);
            assert(seq![xv].to_multiset() =~= Multiset::<RowV>::empty().insert(xv));
            assert(nr.to_multiset() =~= old_r.to_multiset().insert(xv));
            assert(vw.take(i + 1).drop_last() =~= vw.take(i as int));
            assert(vw.take(i + 1) =~= vw.take(i as int).push(xv));
            assert(vw.take(i + 1).to_multiset() =~= vw.take(i as int).to_multiset().insert(xv));
        }
        i = i + 1;
    }
    proof {
        assert(vw.take(vw.len() as int) =~= vw);
    }
    r
}

} // verus!
