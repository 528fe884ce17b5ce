//! Result ordering and paging: sorting a result set by a chosen column
//! with a toggling direction, and handing large result sets to the
//! presentation layer slice by slice.

use vstd::prelude::*;
use vstd::seq_lib::group_to_multiset_ensures;
use vstd::seq_lib::to_multiset_insert;

use crate::search_engine::result::ResultView;
use crate::search_engine::result::SearchEngineResult;
use crate::text::lemma_lex_le_ci_total;
use crate::text::lemma_lex_le_ci_trans;
use crate::text::lex_le_ci;
use crate::text::str_ci_le;

verus! {

/// The direction a column is currently sorted in; `Unset` until a column
/// has been toggled at least once.
#[derive(Default, Clone, Copy, Debug, PartialEq, Eq, Structural)]
pub enum SortDirection {
    Asc,
    Desc,
    #[default]
    Unset,
}

/// Columns that can be sorted: name, modified time and size. The type
/// column and any unrecognized index are not sortable.
pub open spec fn sortable_column(col: int) -> bool {
    col == 0 || col == 1 || col == 3
}

/// The per-column key order: name is compared case-insensitively,
/// modified time chronologically, size numerically.
pub open spec fn key_le(col: int, a: ResultView, b: ResultView) -> bool {
    if col == 0 {
        lex_le_ci(a.name, b.name)
    } else if col == 1 {
        a.modified <= b.modified
    } else {
        a.size <= b.size
    }
}

/// The key order turned around when sorting descending.
pub open spec fn oriented_le(col: int, desc: bool, a: ResultView, b: ResultView) -> bool {
    if desc {
        key_le(col, b, a)
    } else {
        key_le(col, a, b)
    }
}

/// The sequence is ordered by the column's key in the given direction.
pub open spec fn sorted_by_column(s: Seq<ResultView>, col: int, desc: bool) -> bool {
    forall|a: int, b: int| 0 <= a < b < s.len() ==> oriented_le(col, desc, s[a], s[b])
}

/// Which direction a toggle of `col` sorts with: the current direction
/// when the column is already active, ascending when it is newly adopted.
pub open spec fn effective_direction(s: (usize, SortDirection), col: usize) -> SortDirection {
    if s.0 != col {
        SortDirection::Asc
    } else {
        s.1
    }
}

/// The direction recorded for the next toggle.
pub open spec fn flip_direction(d: SortDirection) -> SortDirection {
    if d == SortDirection::Desc {
        SortDirection::Asc
    } else {
        SortDirection::Desc
    }
}

/// How one toggle of `col` changes the sort state; toggles of a column
/// that is not sortable leave it untouched.
pub open spec fn next_sort_state(s: (usize, SortDirection), col: usize) -> (usize,
    SortDirection) {
    if !sortable_column(col as int) {
        s
    } else {
        (col, flip_direction(effective_direction(s, col)))
    }
}

/// A descending sort uses the key's direction reversed.
pub open spec fn is_descending(d: SortDirection) -> bool {
    d == SortDirection::Desc
}

proof fn lemma_oriented_le_total(col: int, desc: bool, a: ResultView, b: ResultView)
    ensures
        oriented_le(col, desc, a, b) || oriented_le(col, desc, b, a),
{
    if col == 0 {
        lemma_lex_le_ci_total(a.name, b.name);
    }
}

proof fn lemma_oriented_le_trans(col: int, desc: bool, a: ResultView, b: ResultView,
    c: ResultView)
    requires
        oriented_le(col, desc, a, b),
        oriented_le(col, desc, b, c),
    ensures
        oriented_le(col, desc, a, c),
{
    if col == 0 {
        if desc {
            lemma_lex_le_ci_trans(c.name, b.name, a.name);
        } else {
            lemma_lex_le_ci_trans(a.name, b.name, c.name);
        }
    }
}

/// Compares two results by one column's key, in the given direction.
fn result_le(col: usize, desc: bool, a: &SearchEngineResult, b: &SearchEngineResult)
    -> (r: bool)
    requires
        sortable_column(col as int),
    ensures
        r == oriented_le(col as int, desc, a@, b@),
{
    let (x, y) = if desc {
        (b, a)
    } else {
        (a, b)
    };
    if col == 0 {
        str_ci_le(x.name.as_str(), y.name.as_str())
    } else if col == 1 {
        x.modified <= y.modified
    } else {
        x.size <= y.size
    }
}

/// Sorts a result set by one column's key (insertion sort): the output is
/// a permutation of the input, ordered by that key.
fn sort_results(col: usize, desc: bool, results: Vec<SearchEngineResult>)
    -> (r: Vec<SearchEngineResult>)
    requires
        sortable_column(col as int),
    ensures
        r@.to_multiset() == results@.to_multiset(),
        r@.len() == results@.len(),
        sorted_by_column(r.deep_view(), col as int, desc),
{
    broadcast use group_to_multiset_ensures;
    broadcast use to_multiset_insert;

    let mut v = results;
    let ghost orig = v@;
    if v.len() <= 1 {
        return v;
    }
    let mut i: usize = 1;
    while i < v.len()
        invariant
            1 <= i <= v@.len(),
            v@.len() == orig.len(),
            v@.to_multiset() == orig.to_multiset(),
            sortable_column(col as int),
            forall|a: int, b: int|
                0 <= a < b < i ==> oriented_le(col as int, desc, (#[trigger] v@[a])@,
                    (#[trigger] v@[b])@),
        decreases v@.len() - i,
    {
        let ghost w0 = v@;
        let x = v.remove(i);
        let ghost w = v@;
        let mut k: usize = 0;
        while k < i && result_le(col, desc, &v[k], &x)
            invariant
                0 <= k <= i,
                i < w0.len(),
                w == v@,
                w.len() == w0.len() - 1,
                i <= w.len(),
                sortable_column(col as int),
                forall|j: int| 0 <= j < k ==> oriented_le(col as int, desc,
                    (#[trigger] w[j])@, x@),
            decreases i - k,
        {
            k += 1;
        }
        proof {
            if k < i {
                lemma_oriented_le_total(col as int, desc, v@[k as int]@, x@);
            }
        }
        v.insert(k, x);
        proof {
            let u = v@;
            assert(u == w.insert(k as int, x));
            assert(w == w0.remove(i as int));
            vstd::seq_lib::to_multiset_remove(w0, i as int);
            vstd::seq_lib::to_multiset_insert(w, k as int, x);
            vstd::seq_lib::to_multiset_contains(w0, x);
            assert(w0.contains(x));
            assert(u.to_multiset() =~= orig.to_multiset());
            assert forall|a: int, b: int| 0 <= a < b < i + 1 implies oriented_le(
                col as int,
                desc,
                (#[trigger] u[a])@,
                (#[trigger] u[b])@,
            ) by {
                if b < k {
                } else if b == k {
                    assert(oriented_le(col as int, desc, w[a]@, x@));
                } else if a < k {
                    assert(u[b] == w[b - 1]);
                    assert(oriented_le(col as int, desc, w[a]@, w[b - 1]@));
                } else if a == k {
                    assert(u[b] == w[b - 1]);
                    if b - 1 == k {
                        assert(oriented_le(col as int, desc, x@, w[k as int]@));
                    } else {
                        assert(oriented_le(col as int, desc, x@, w[k as int]@));
                        assert(oriented_le(col as int, desc, w[k as int]@, w[b - 1]@));
                        lemma_oriented_le_trans(col as int, desc, x@, w[k as int]@,
                            w[b - 1]@);
                    }
                } else {
                    assert(u[a] == w[a - 1] && u[b] == w[b - 1]);
                    assert(oriented_le(col as int, desc, w[a - 1]@, w[b - 1]@));
                }
            }
        }
        i += 1;
    }
    v
}

/// Sorts a result set by the requested column, toggling the recorded
/// direction. An unsupported column is a no-op: the input comes back
/// unchanged and the state keeps its value. A supported column sorts
/// with the direction the state holds for it (a newly adopted column
/// starts ascending), then records the flipped direction for the next
/// toggle.
pub fn sort_by_column(
    sort_dir: &mut (usize, SortDirection),
    col_index: usize,
    results: Vec<SearchEngineResult>,
) -> (r: Vec<SearchEngineResult>)
    ensures
        *final(sort_dir) == next_sort_state(*old(sort_dir), col_index),
        !sortable_column(col_index as int) ==> r@ == results@,
        sortable_column(col_index as int) ==> r@.to_multiset() == results@.to_multiset()
            && r@.len() == results@.len() && sorted_by_column(
            r.deep_view(),
            col_index as int,
            is_descending(effective_direction(*old(sort_dir), col_index)),
        ),
{
    if !(col_index == 0 || col_index == 1 || col_index == 3) {
        return results;
    }
    if sort_dir.0 != col_index {
        sort_dir.0 = col_index;
        sort_dir.1 = SortDirection::Asc;
    }
    let desc = match sort_dir.1 {
        SortDirection::Desc => true,
        _ => false,
    };
    let sorted = sort_results(col_index, desc, results);
    sort_dir.1 = match sort_dir.1 {
        SortDirection::Desc => SortDirection::Asc,
        _ => SortDirection::Desc,
    };
    sorted
}

/// Toggling the same sortable column twice brings the recorded direction
/// back to where the first toggle started: ascending toggles to
/// descending and back.
pub proof fn lemma_direction_round_trip(s: (usize, SortDirection), col: usize)
    requires
        sortable_column(col as int),
        effective_direction(s, col) != SortDirection::Unset,
    ensures
        next_sort_state(next_sort_state(s, col), col) == ((col, effective_direction(
            s,
            col,
        ))),
{
}

/// The next up-to-`page_size` results starting at `already_rendered`:
/// empty once everything has been rendered.
pub fn next_slice(
    all_results: &Vec<SearchEngineResult>,
    already_rendered: usize,
    page_size: usize,
) -> (r: Vec<SearchEngineResult>)
    ensures
        r@ == all_results@.subrange(
            vstd::math::min(already_rendered as int, all_results@.len() as int),
            vstd::math::min(
                already_rendered as int + page_size as int,
                all_results@.len() as int,
            ),
        ),
{
    let len = all_results.len();
    let start = if already_rendered > len {
        len
    } else {
        already_rendered
    };
    let end = if page_size > len - start {
        len
    } else {
        start + page_size
    };
    let mut out: Vec<SearchEngineResult> = Vec::new();
    let mut i: usize = start;
    while i < end
        invariant
            start <= i <= end,
            end <= len,
            len == all_results@.len(),
            out@ =~= all_results@.subrange(start as int, i as int),
        decreases end - i,
    {
        out.push(all_results[i].clone());
        proof {
            assert(out@ =~= all_results@.subrange(start as int, i + 1));
        }
        i += 1;
    }
    proof {
        assert(out@ =~= all_results@.subrange(
            vstd::math::min(already_rendered as int, all_results@.len() as int),
            vstd::math::min(
                already_rendered as int + page_size as int,
                all_results@.len() as int,
            ),
        ));
    }
    out
}

} // verus!
