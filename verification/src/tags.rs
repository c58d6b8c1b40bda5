//! Tag handling: the lexical form a tag must have, membership tests, and
//! the list rewrites behind renaming, merging and deleting tags across
//! the collection.

use vstd::prelude::*;
use vstd::multiset::Multiset;

use crate::strutil::{chars_to_string, cp_le, lemma_lex_le_total, lemma_lex_le_trans, str_to_chars, string_eq};

verus! {

/// The characters a tag may hold: lowercase ASCII letters, digits, and
/// the hyphen.
pub open spec fn is_tag_char(c: char) -> bool {
    ('a' <= c && c <= 'z') || ('0' <= c && c <= '9') || c == '-'
}

/// The lexical form of a tag: nonempty, tag characters only, and hyphens
/// neither leading, trailing, nor doubled.
pub open spec fn valid_tag_spec(s: Seq<char>) -> bool {
    &&& s.len() > 0
    &&& s[0] != '-'
    &&& s[s.len() - 1] != '-'
    &&& forall|i: int| 0 <= i < s.len() ==> is_tag_char(#[trigger] s[i])
    &&& forall|i: int| 0 <= i < s.len() - 1 ==> !(#[trigger] s[i] == '-' && s[i + 1] == '-')
}

/// Decides whether a tag has the accepted lexical form.
pub fn validate_tag(tag: &str) -> (r: bool)
    ensures
        r == valid_tag_spec(tag@),
{
    let v = str_to_chars(tag);
    if v.len() == 0 {
        return false;
    }
    if v[0] == '-' || v[v.len() - 1] == '-' {
        return false;
    }
    let mut i: usize = 0;
    while i < v.len()
        invariant
            v@ == tag@,
            i <= v@.len(),
            v@.len() > 0,
            forall|j: int| 0 <= j < i ==> is_tag_char(#[trigger] v@[j]),
            forall|j: int| 0 <= j < i - 1 ==> !(#[trigger] v@[j] == '-' && v@[j + 1] == '-'),
            i > 0 ==> v@[i - 1] != '-' || i == 1 || v@[i - 2] != '-',
            v@[0] != '-',
            v@[v@.len() - 1] != '-',
        decreases v@.len() - i,
    {
        let c = v[i];
        if c == '-' {
            if i > 0 && v[i - 1] == '-' {
                return false;
            }
        } else if !(('a' <= c && c <= 'z') || ('0' <= c && c <= '9')) {
            return false;
        }
        i = i + 1;
    }
    true
}

/// Whether the list holds the given string.
pub open spec fn contains_str(l: Seq<Seq<char>>, t: Seq<char>) -> bool {
    exists|i: int| 0 <= i < l.len() && l[i] == t
}

/// Decides whether a tag list holds the given tag.
pub fn has_tag(tags: &Vec<String>, t: &String) -> (r: bool)
    ensures
        r == contains_str(tags.deep_view(), t@),
{
    let mut i: usize = 0;
    while i < tags.len()
        invariant
            i <= tags@.len(),
            forall|j: int| 0 <= j < i ==> tags.deep_view()[j] != t@,
        decreases tags@.len() - i,
    {
        if string_eq(&tags[i], t) {
            proof {
                assert(tags.deep_view()[i as int] == t@);
            }
            return true;
        }
        i = i + 1;
    }
    false
}

/// Whether the article's tag list is a superset of every required tag.
pub open spec fn has_all_tags_spec(tags: Seq<Seq<char>>, required: Seq<Seq<char>>) -> bool {
    forall|i: int| 0 <= i < required.len() ==> contains_str(tags, #[trigger] required[i])
}

/// Decides whether a tag list holds every required tag.
pub fn has_all_tags(tags: &Vec<String>, required: &Vec<String>) -> (r: bool)
    ensures
        r == has_all_tags_spec(tags.deep_view(), required.deep_view()),
{
    let mut i: usize = 0;
    while i < required.len()
        invariant
            i <= required@.len(),
            forall|j: int|
                0 <= j < i ==> contains_str(tags.deep_view(), #[trigger] required.deep_view()[j]),
        decreases required@.len() - i,
    {
        if !has_tag(tags, &required[i]) {
            proof {
                assert(required.deep_view()[i as int] == required@[i as int]@);
            }
            return false;
        }
        i = i + 1;
    }
    true
}

/// The list with every occurrence of `t` removed.
pub open spec fn remove_str(l: Seq<Seq<char>>, t: Seq<char>) -> Seq<Seq<char>> {
    l.filter(|x: Seq<char>| x != t)
}

/// Removes every occurrence of `t` from a tag list.
pub fn remove_tag(tags: &Vec<String>, t: &String) -> (r: Vec<String>)
    ensures
        r.deep_view() == remove_str(tags.deep_view(), t@),
{
    let mut r: Vec<String> = Vec::new();
    let mut i: usize = 0;
    proof {
        assert(tags.deep_view().take(0).filter(|x: Seq<char>| x != t@) =~= Seq::<
            Seq<char>,
        >::empty());
        assert(r.deep_view() =~= Seq::<Seq<char>>::empty());
    }
    while i < tags.len()
        invariant
            i <= tags@.len(),
            tags.deep_view().len() == tags@.len(),
            r.deep_view() == tags.deep_view().take(i as int).filter(|x: Seq<char>| x != t@),
        decreases tags@.len() - i,
    {
        proof {
            reveal_with_fuel(Seq::filter, 2);
            assert(tags.deep_view().take(i + 1).drop_last() =~= tags.deep_view().take(i as int));
            assert(tags.deep_view().take(i + 1).last() == tags.deep_view()[i as int]);
        }
        if !string_eq(&tags[i], t) {
            r.push(tags[i].clone());
            proof {
                assert(tags.deep_view()[i as int] == tags@[i as int]@);
                assert(r.deep_view() =~= tags.deep_view().take(i as int).filter(
                    |x: Seq<char>| x != t@,
                ).push(tags.deep_view()[i as int]));
            }
        } else {
            proof {
                assert(tags.deep_view()[i as int] == t@);
            }
        }
        i = i + 1;
    }
    proof {
        assert(tags.deep_view().take(tags@.len() as int) =~= tags.deep_view());
    }
    r
}

/// The list with `t` appended unless it is already present.
pub open spec fn add_unique_str(l: Seq<Seq<char>>, t: Seq<char>) -> Seq<Seq<char>> {
    if contains_str(l, t) {
        l
    } else {
        l.push(t)
    }
}

/// Appends `t` to a tag list unless it is already present.
pub fn add_tag_unique(tags: &mut Vec<String>, t: &String)
    ensures
        final(tags).deep_view() == add_unique_str(old(tags).deep_view(), t@),
{
    if !has_tag(tags, t) {
        tags.push(t.clone());
        proof {
            assert(final(tags).deep_view() =~= old(tags).deep_view().push(t@));
        }
    }
}

/// Whether the list holds any tag from `sources`, `into` excepted.
/// A row is touched by a merge exactly when this holds of it.
pub open spec fn merge_affects(l: Seq<Seq<char>>, sources: Seq<Seq<char>>, into: Seq<char>) -> bool {
    exists|i: int| 0 <= i < l.len() && contains_str(remove_str(sources, into), #[trigger] l[i])
}

/// The list with every string that occurs in `se` removed.
pub open spec fn drop_sources(l: Seq<Seq<char>>, se: Seq<Seq<char>>) -> Seq<Seq<char>> {
    l.filter(|x: Seq<char>| !contains_str(se, x))
}

/// A list holding nothing from `se` is left whole by `drop_sources`.
proof fn lemma_drop_sources_noop(l: Seq<Seq<char>>, se: Seq<Seq<char>>)
    requires
        forall|i: int| 0 <= i < l.len() ==> !contains_str(se, #[trigger] l[i]),
    ensures
        drop_sources(l, se) == l,
    decreases l.len(),
{
    reveal_with_fuel(Seq::filter, 2);
    if l.len() == 0 {
        assert(drop_sources(l, se) =~= l);
    } else {
        lemma_drop_sources_noop(l.drop_last(), se);
        assert(drop_sources(l, se) =~= drop_sources(l.drop_last(), se).push(l.last()));
        assert(drop_sources(l, se) =~= l.drop_last().push(l.last()));
        assert(l.drop_last().push(l.last()) =~= l);
    }
}

/// The tag list after merging `sources` into `into`: the source tags are
/// dropped, and `into` is appended once unless it is already present.
/// A list holding none of the source tags is left as it stands.
pub open spec fn merge_str(l: Seq<Seq<char>>, sources: Seq<Seq<char>>, into: Seq<char>) -> Seq<
    Seq<char>,
> {
    if merge_affects(l, sources, into) {
        add_unique_str(drop_sources(l, remove_str(sources, into)), into)
    } else {
        l
    }
}

/// Rewrites one tag list for a merge. Also reports whether the list was
/// touched at all.
pub fn merge_tag_list(tags: &Vec<String>, sources: &Vec<String>, into: &String) -> (r: (
    Vec<String>,
    bool,
))
    ensures
        r.1 == merge_affects(tags.deep_view(), sources.deep_view(), into@),
        r.0.deep_view() == merge_str(tags.deep_view(), sources.deep_view(), into@),
{
    let eff = remove_tag(sources, into);
    let mut kept: Vec<String> = Vec::new();
    let mut touched = false;
    let ghost se = remove_str(sources.deep_view(), into@);
    proof {
        assert(drop_sources(tags.deep_view().take(0), se) =~= Seq::<Seq<char>>::empty());
        assert(kept.deep_view() =~= Seq::<Seq<char>>::empty());
    }
    let mut i: usize = 0;
    while i < tags.len()
        invariant
            i <= tags@.len(),
            tags.deep_view().len() == tags@.len(),
            eff.deep_view() == se,
            se == remove_str(sources.deep_view(), into@),
            kept.deep_view() == drop_sources(tags.deep_view().take(i as int), se),
            touched == exists|j: int|
                0 <= j < i && contains_str(se, #[trigger] tags.deep_view()[j]),
        decreases tags@.len() - i,
    {
        proof {
            reveal_with_fuel(Seq::filter, 2);
            assert(tags.deep_view().take(i + 1).drop_last() =~= tags.deep_view().take(i as int));
            assert(tags.deep_view().take(i + 1).last() == tags.deep_view()[i as int]);
            assert(tags.deep_view()[i as int] == tags@[i as int]@);
        }
        if has_tag(&eff, &tags[i]) {
            touched = true;
            proof {
                assert(contains_str(se, tags.deep_view()[i as int]));
            }
        } else {
            kept.push(tags[i].clone());
            proof {
                assert(kept.deep_view() =~= drop_sources(tags.deep_view().take(i as int), se).push(
                    tags.deep_view()[i as int],
                ));
            }
        }
        i = i + 1;
    }
    proof {
        assert(tags.deep_view().take(tags@.len() as int) =~= tags.deep_view());
    }
    if touched {
        add_tag_unique(&mut kept, into);
        (kept, true)
    } else {
        proof {
            lemma_drop_sources_noop(tags.deep_view(), se);
        }
        (kept, false)
    }
}

/// Whether a string list is in ascending code-point order.
pub open spec fn sorted_cp(s: Seq<Seq<char>>) -> bool {
    forall|i: int, j: int| 0 <= i < j < s.len() ==> cp_le(#[trigger] s[i], #[trigger] s[j])
}

/// The position where `x` belongs in a sorted list: everything before it
/// sorts at or before `x`, and the element at it, if any, does not.
fn lower_bound(r: &Vec<String>, x: &String) -> (p: usize)
    ensures
        p <= r@.len(),
        forall|k: int| 0 <= k < p ==> cp_le(#[trigger] r.deep_view()[k], x@),
        p < r@.len() ==> !cp_le(r.deep_view()[p as int], x@),
{
    let mut p: usize = 0;
    while p < r.len()
        invariant
            p <= r@.len(),
            r.deep_view().len() == r@.len(),
            forall|k: int| 0 <= k < p ==> cp_le(#[trigger] r.deep_view()[k], x@),
        decreases r@.len() - p,
    {
        proof {
            assert(r.deep_view()[p as int] == r@[p as int]@);
        }
        if !crate::strutil::str_cp_le(&r[p], x) {
            return p;
        }
        p = p + 1;
    }
    p
}

/// Sorts a list of strings into ascending code-point order. The result
/// holds exactly the same strings, with multiplicity.
pub fn sort_strings(v: &Vec<String>) -> (r: Vec<String>)
    ensures
        sorted_cp(r.deep_view()),
        r.deep_view().to_multiset() == v.deep_view().to_multiset(),
        r@.len() == v@.len(),
{
    let mut r: Vec<String> = Vec::new();
    let mut i: usize = 0;
    proof {
        broadcast use vstd::seq_lib::group_to_multiset_ensures;

        assert(v.deep_view().take(0) =~= Seq::<Seq<char>>::empty());
        assert(r.deep_view() =~= Seq::<Seq<char>>::empty());
        assert(r.deep_view().to_multiset() =~= v.deep_view().take(0).to_multiset());
    }
    while i < v.len()
        invariant
            i <= v@.len(),
            v.deep_view().len() == v@.len(),
            r@.len() == i,
            r.deep_view().len() == i,
            sorted_cp(r.deep_view()),
            r.deep_view().to_multiset() == v.deep_view().take(i as int).to_multiset(),
        decreases v@.len() - i,
    {
        let x = v[i].clone();
        proof {
            assert(x@ == v.deep_view()[i as int]);
        }
        let p = lower_bound(&r, &x);
        let ghost old_r = r.deep_view();
        let ghost xv = v.deep_view()[i as int];
        r.insert(p, x);
        proof {
            broadcast use vstd::seq_lib::group_to_multiset_ensures;

            let nr = r.deep_view();
            assert(nr =~= old_r.insert(p as int, xv));
            if p < old_r.len() {
                lemma_lex_le_total(old_r[p as int], xv, false);
            }
            // the extended list is sorted again
            assert forall|a: int, b: int| 0 <= a < b < nr.len() implies cp_le(
                #[trigger] nr[a],
                #[trigger] nr[b],
            ) by {
                if b < p {
                    assert(nr[a] == old_r[a] && nr[b] == old_r[b]);
                } else if a < p && b == p {
                    assert(nr[a] == old_r[a] && nr[b] == xv);
                } else if a < p && b > p {
                    assert(nr[a] == old_r[a] && nr[b] == old_r[b - 1]);
                    if !(b - 1 > a) {
                        assert(b - 1 == a);
                        lemma_lex_le_trans(old_r[a], xv, xv, false);
                    }
                } else if a == p && b > p {
                    assert(nr[a] == xv && nr[b] == old_r[b - 1]);
                    assert(cp_le(xv, old_r[p as int]));
                    if b - 1 > p as int {
                        lemma_lex_le_trans(xv, old_r[p as int], old_r[b - 1], false);
                    }
                } else {
                    assert(a > p);
                    assert(nr[a] == old_r[a - 1] && nr[b] == old_r[b - 1]);
                }
            }
            // multiset: inserting anywhere adds one occurrence
            assert(old_r.insert(p as int, xv) =~= old_r.take(p as int).add(
                seq![xv].add(old_r.skip(p as int)),
            ));
            vstd::seq_lib::lemma_multiset_commutative(
                old_r.take(p as int),
                seq![xv].add(old_r.skip(p as int)),
            );
            vstd::seq_lib::lemma_multiset_commutative(seq![xv], old_r.skip(p as int));
            vstd::seq_lib::lemma_multiset_commutative(old_r.take(p as int), old_r.skip(p as int));
            assert(old_r.take(p as int).add(old_r.skip(p as int)) =~= old_r);
            assert(seq![xv].to_multiset() =~= Multiset::<Seq<char>>::empty().insert(xv));
            assert(nr.to_multiset() =~= old_r.to_multiset().insert(xv));
            assert(v.deep_view().take(i + 1).drop_last() =~= v.deep_view().take(i as int));
            assert(v.deep_view().take(i + 1) =~= v.deep_view().take(i as int).push(xv));
            assert(v.deep_view().take(i + 1).to_multiset() =~= v.deep_view().take(
                i as int,
            ).to_multiset().insert(xv));
        }
        i = i + 1;
    }
    proof {
        assert(v.deep_view().take(v@.len() as int) =~= v.deep_view());
    }
    r
}

/// How often a string occurs in a list.
pub open spec fn count_str(l: Seq<Seq<char>>, t: Seq<char>) -> int {
    l.filter(|x: Seq<char>| x == t).len() as int
}

/// A list holds a string exactly when its count is positive.
pub proof fn lemma_count_contains(l: Seq<Seq<char>>, t: Seq<char>)
    ensures
        contains_str(l, t) <==> count_str(l, t) > 0,
    decreases l.len(),
{
    reveal_with_fuel(Seq::filter, 2);
    if l.len() == 0 {
    } else {
        lemma_count_contains(l.drop_last(), t);
        if contains_str(l, t) {
            let i = choose|i: int| 0 <= i < l.len() && l[i] == t;
            if i < l.len() - 1 {
                assert(l.drop_last()[i] == t);
            }
        }
        if contains_str(l.drop_last(), t) {
            let i = choose|i: int| 0 <= i < l.drop_last().len() && l.drop_last()[i] == t;
            assert(l[i] == t);
        }
    }
}

/// Filtering never raises a string's count.
pub proof fn lemma_count_filter_le(l: Seq<Seq<char>>, se: Seq<Seq<char>>, t: Seq<char>)
    ensures
        count_str(drop_sources(l, se), t) <= count_str(l, t),
        count_str(drop_sources(l, se), t) >= 0,
    decreases l.len(),
{
    reveal_with_fuel(Seq::filter, 2);
    if l.len() > 0 {
        lemma_count_filter_le(l.drop_last(), se, t);
        assert(drop_sources(l, se) == if !contains_str(se, l.last()) {
            drop_sources(l.drop_last(), se).push(l.last())
        } else {
            drop_sources(l.drop_last(), se)
        });
        if !contains_str(se, l.last()) {
            assert(drop_sources(l, se).drop_last() =~= drop_sources(l.drop_last(), se));
        }
    }
}

/// Merging never leaves the target tag twice on a row that did not
/// already carry it twice: from a list holding the target at most once,
/// the merged list holds it at most once.
pub proof fn lemma_merge_no_duplicate(l: Seq<Seq<char>>, sources: Seq<Seq<char>>, into: Seq<char>)
    requires
        count_str(l, into) <= 1,
    ensures
        count_str(merge_str(l, sources, into), into) <= 1,
        merge_affects(l, sources, into) ==> count_str(merge_str(l, sources, into), into) == 1,
{
    reveal_with_fuel(Seq::filter, 2);
    if merge_affects(l, sources, into) {
        let se = remove_str(sources, into);
        let kept = drop_sources(l, se);
        lemma_count_filter_le(l, se, into);
        lemma_count_contains(kept, into);
        if contains_str(kept, into) {
            assert(merge_str(l, sources, into) == kept);
            assert(count_str(kept, into) == 1);
        } else {
            assert(merge_str(l, sources, into) == kept.push(into));
            assert(count_str(kept, into) == 0);
            assert(kept.push(into).drop_last() =~= kept);
            assert(kept.push(into).filter(|x: Seq<char>| x == into) =~= kept.filter(
                |x: Seq<char>| x == into,
            ).push(into));
            assert(count_str(kept.push(into), into) == 1);
        }
    }
}

/// What survives `drop_sources` was not in `se`.
proof fn lemma_dropped_absent(l: Seq<Seq<char>>, se: Seq<Seq<char>>, i: int)
    requires
        0 <= i < drop_sources(l, se).len(),
    ensures
        !contains_str(se, drop_sources(l, se)[i]),
    decreases l.len(),
{
    reveal_with_fuel(Seq::filter, 2);
    if l.len() > 0 {
        let kept = drop_sources(l, se);
        let prev = drop_sources(l.drop_last(), se);
        if !contains_str(se, l.last()) {
            if i < kept.len() - 1 {
                lemma_dropped_absent(l.drop_last(), se, i);
            }
        } else {
            lemma_dropped_absent(l.drop_last(), se, i);
        }
    }
}

/// Merging is idempotent: a second application of the same merge leaves
/// the list as it stands, since no source tag survives the first.
pub proof fn lemma_merge_idempotent(l: Seq<Seq<char>>, sources: Seq<Seq<char>>, into: Seq<char>)
    ensures
        merge_str(merge_str(l, sources, into), sources, into) == merge_str(l, sources, into),
{
    let se = remove_str(sources, into);
    let m = merge_str(l, sources, into);
    if merge_affects(l, sources, into) {
        let kept = drop_sources(l, se);
        assert forall|i: int| 0 <= i < m.len() implies !contains_str(se, #[trigger] m[i]) by {
            if contains_str(kept, into) {
                lemma_dropped_absent(l, se, i);
            } else {
                if i < m.len() - 1 {
                    lemma_dropped_absent(l, se, i);
                } else {
                    assert(m[i] == into);
                    lemma_count_contains(se, into);
                    lemma_into_not_in_sources(sources, into);
                }
            }
        }
        assert(!merge_affects(m, sources, into));
    } else {
        assert(!merge_affects(m, sources, into));
    }
}

/// The target tag never stands among the effective sources.
proof fn lemma_into_not_in_sources(sources: Seq<Seq<char>>, into: Seq<char>)
    ensures
        !contains_str(remove_str(sources, into), into),
    decreases sources.len(),
{
    reveal_with_fuel(Seq::filter, 2);
    if sources.len() > 0 {
        lemma_into_not_in_sources(sources.drop_last(), into);
        let kept = remove_str(sources, into);
        let prev = remove_str(sources.drop_last(), into);
        if contains_str(kept, into) {
            let i = choose|i: int| 0 <= i < kept.len() && kept[i] == into;
            if sources.last() != into {
                if i < kept.len() - 1 {
                    assert(prev[i] == into);
                } else {
                    assert(kept[i] == sources.last());
                }
            } else {
                assert(prev[i] == into);
            }
            assert(false);
        }
    }
}

/// What the case folder yields for a string. The result depends on the
/// characters alone.
pub uninterp spec fn lower_of(s: Seq<char>) -> Seq<char>;

/// Relies on `str::to_lowercase`: the lowercase form of the string.
#[verifier::external_body]
fn lowercase(s: &str) -> (r: String)
    ensures
        r@ == lower_of(s@),
{
    s.to_lowercase()
}

/// The list with later repetitions dropped, first occurrences kept in
/// order.
pub open spec fn dedup_first(l: Seq<Seq<char>>) -> Seq<Seq<char>>
    decreases l.len(),
{
    if l.len() == 0 {
        Seq::empty()
    } else {
        let d = dedup_first(l.drop_last());
        if contains_str(d, l.last()) {
            d
        } else {
            d.push(l.last())
        }
    }
}

/// What a run of tag edits comes to.
pub ghost enum OpsOutcome {
    /// Every edit applied; the final tag set.
    Done(Seq<Seq<char>>),
    /// An added tag, after folding, had a rejected form.
    BadTag(Seq<char>),
    /// An edit started with neither a plus nor a minus.
    BadOp(Seq<char>),
}

/// Runs tag edits left to right over a duplicate-free tag set: a plus
/// adds the folded tag once, after checking its form; a minus removes
/// every occurrence of the folded tag; anything else stops the run.
pub open spec fn run_ops(tags: Seq<Seq<char>>, ops: Seq<Seq<char>>) -> OpsOutcome
    decreases ops.len(),
{
    if ops.len() == 0 {
        OpsOutcome::Done(tags)
    } else {
        let op = ops[0];
        if op.len() > 0 && op[0] == '+' {
            let t = lower_of(op.skip(1));
            if !valid_tag_spec(t) {
                OpsOutcome::BadTag(t)
            } else {
                run_ops(add_unique_str(tags, t), ops.skip(1))
            }
        } else if op.len() > 0 && op[0] == '-' {
            run_ops(remove_str(tags, lower_of(op.skip(1))), ops.skip(1))
        } else {
            OpsOutcome::BadOp(op)
        }
    }
}

/// What applying tag edits reports.
#[derive(Debug)]
pub enum TagOpsResult {
    /// No edits were given; the tags stand.
    NoChange,
    /// The new tag list, sorted, each tag once.
    Updated(Vec<String>),
    /// This added tag, after folding, had a rejected form.
    BadTag(String),
    /// This edit started with neither a plus nor a minus.
    BadOp(String),
}

/// Drops later repetitions from a tag list.
fn dedup_tags(tags: &Vec<String>) -> (r: Vec<String>)
    ensures
        r.deep_view() == dedup_first(tags.deep_view()),
{
    let mut r: Vec<String> = Vec::new();
    let mut i: usize = 0;
    proof {
        assert(dedup_first(tags.deep_view().take(0)) =~= Seq::<Seq<char>>::empty());
        assert(r.deep_view() =~= Seq::<Seq<char>>::empty());
    }
    while i < tags.len()
        invariant
            i <= tags@.len(),
            tags.deep_view().len() == tags@.len(),
            r.deep_view() == dedup_first(tags.deep_view().take(i as int)),
        decreases tags@.len() - i,
    {
        proof {
            assert(tags.deep_view().take(i + 1).drop_last() =~= tags.deep_view().take(i as int));
            assert(tags.deep_view().take(i + 1).last() == tags.deep_view()[i as int]);
            assert(tags.deep_view()[i as int] == tags@[i as int]@);
        }
        add_tag_unique(&mut r, &tags[i]);
        i = i + 1;
    }
    proof {
        assert(tags.deep_view().take(tags@.len() as int) =~= tags.deep_view());
    }
    r
}

/// Applies `+tag` and `-tag` edits to an article's tag list, as the tag
/// command does: the list is first collapsed to a set, each edit folds
/// its tag to lowercase, an added tag must have the accepted form, and
/// the surviving set comes back sorted. No edits means no change; a bad
/// edit stops everything before any change is reported.
pub fn apply_tag_operations(current: &Vec<String>, ops: &Vec<String>) -> (r: TagOpsResult)
    ensures
        ops@.len() == 0 <==> r is NoChange,
        match r {
            TagOpsResult::NoChange => ops@.len() == 0,
            TagOpsResult::Updated(v) => {
                &&& run_ops(dedup_first(current.deep_view()), ops.deep_view()) matches
                    OpsOutcome::Done(s)
                &&& sorted_cp(v.deep_view())
                &&& v.deep_view().to_multiset() == (match run_ops(
                    dedup_first(current.deep_view()),
                    ops.deep_view(),
                ) {
                    OpsOutcome::Done(s) => s,
                    _ => Seq::empty(),
                }).to_multiset()
            },
            TagOpsResult::BadTag(t) => run_ops(dedup_first(current.deep_view()), ops.deep_view())
                == OpsOutcome::BadTag(t@),
            TagOpsResult::BadOp(o) => run_ops(dedup_first(current.deep_view()), ops.deep_view())
                == OpsOutcome::BadOp(o@),
        },
{
    if ops.len() == 0 {
        return TagOpsResult::NoChange;
    }
    let mut state = dedup_tags(current);
    let ghost d0 = dedup_first(current.deep_view());
    let ghost all_ops = ops.deep_view();
    let mut i: usize = 0;
    proof {
        assert(all_ops.skip(0) =~= all_ops);
    }
    while i < ops.len()
        invariant
            all_ops == ops.deep_view(),
            all_ops.len() == ops@.len(),
            d0 == dedup_first(current.deep_view()),
            i <= ops@.len(),
            run_ops(d0, all_ops) == run_ops(state.deep_view(), all_ops.skip(i as int)),
        decreases ops@.len() - i,
    {
        proof {
            assert(all_ops.skip(i as int)[0] == all_ops[i as int]);
            assert(all_ops.skip(i as int).skip(1) =~= all_ops.skip(i + 1));
            assert(all_ops[i as int] == ops@[i as int]@);
        }
        let chars = str_to_chars(ops[i].as_str());
        if chars.len() > 0 && chars[0] == '+' {
            let mut rest: Vec<char> = Vec::new();
            let mut j: usize = 1;
            while j < chars.len()
                invariant
                    1 <= j <= chars@.len(),
                    rest@ == chars@.subrange(1, j as int),
                decreases chars@.len() - j,
            {
                rest.push(chars[j]);
                j = j + 1;
            }
            proof {
                assert(rest@ =~= chars@.skip(1));
            }
            let rest_s = chars_to_string(&rest);
            let folded = lowercase(rest_s.as_str());
            if !validate_tag(folded.as_str()) {
                proof {
                    assert(folded@ == lower_of(all_ops[i as int].skip(1)));
                    assert(run_ops(state.deep_view(), all_ops.skip(i as int))
                        == OpsOutcome::BadTag(folded@));
                }
                return TagOpsResult::BadTag(folded);
            }
            add_tag_unique(&mut state, &folded);
            proof {
                assert(run_ops(d0, all_ops) == run_ops(state.deep_view(), all_ops.skip(i + 1)));
            }
        } else if chars.len() > 0 && chars[0] == '-' {
            let mut rest: Vec<char> = Vec::new();
            let mut j: usize = 1;
            while j < chars.len()
                invariant
                    1 <= j <= chars@.len(),
                    rest@ == chars@.subrange(1, j as int),
                decreases chars@.len() - j,
            {
                rest.push(chars[j]);
                j = j + 1;
            }
            proof {
                assert(rest@ =~= chars@.skip(1));
            }
            let rest_s = chars_to_string(&rest);
            let folded = lowercase(rest_s.as_str());
            state = remove_tag(&state, &folded);
            proof {
                assert(run_ops(d0, all_ops) == run_ops(state.deep_view(), all_ops.skip(i + 1)));
            }
        } else {
            let bad = ops[i].clone();
            proof {
                assert(bad@ == all_ops[i as int]);
                assert(run_ops(state.deep_view(), all_ops.skip(i as int)) == OpsOutcome::BadOp(
                    bad@,
                ));
            }
            return TagOpsResult::BadOp(bad);
        }
        i = i + 1;
    }
    proof {
        assert(all_ops.skip(all_ops.len() as int) =~= Seq::<Seq<char>>::empty());
    }
    let sorted = sort_strings(&state);
    TagOpsResult::Updated(sorted)
}

} // verus!
