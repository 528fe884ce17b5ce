//! The search engine: a recursive walk of a directory subtree that
//! collects every entry matching the query filters, bounded by the
//! query's depth and pruned by the exclusion policy.

pub mod parameter_parser;
pub mod result;

use vstd::prelude::*;

use crate::fs_model::EntryKind;
use crate::fs_model::FsEntry;
use crate::search_engine::parameter_parser::can_descend;
use crate::search_engine::parameter_parser::ParamsView;
use crate::search_engine::parameter_parser::SearchEngineParameter;
use crate::search_engine::result::result_view_of;
use crate::search_engine::result::join_path;
use crate::search_engine::result::ResultView;
use crate::search_engine::result::SearchEngineResult;
use crate::text::contains_seq;
use crate::text::ext_contains;
use crate::text::ext_segment;
use crate::text::str_contains;

verus! {

/// Failure to list the root directory of a search.
#[derive(Clone, Copy, PartialEq, Eq, Debug, Structural)]
pub enum SearchError {
    Unreadable,
}

/// The recursive directory-search algorithm.
#[derive(Default, Clone)]
pub struct SearchEngine {}

/// The match predicate: the name must contain the term (when present) and
/// its final dot-segment must contain the extension (when present).
pub open spec fn entry_matches(p: ParamsView, name: Seq<char>) -> bool {
    (match p.term {
        Option::Some(t) => contains_seq(name, t),
        Option::None => true,
    }) && (match p.extension {
        Option::Some(x) => contains_seq(ext_segment(name), x),
        Option::None => true,
    })
}

/// The matches found directly in a listing, in listing order.
pub open spec fn matches_of(p: ParamsView, entries: Seq<FsEntry>, dir: Seq<char>)
    -> Seq<ResultView>
    decreases entries.len(),
{
    if entries.len() == 0 {
        Seq::empty()
    } else {
        matches_of(p, entries.drop_last(), dir) + (if entry_matches(
            p,
            entries.last().name@,
        ) {
            seq![result_view_of(entries.last(), dir)]
        } else {
            Seq::empty()
        })
    }
}

/// The matches contributed by descending into the subdirectories of a
/// listing that the exclusion policy admits, in listing order. Nothing is
/// contributed once the depth bound is reached; an unreadable
/// subdirectory contributes nothing.
pub open spec fn sub_results(
    p: ParamsView,
    entries: Seq<FsEntry>,
    dir: Seq<char>,
    depth: int,
) -> Seq<ResultView>
    decreases p.depth - depth, entries.len(), 0int,
{
    if depth >= p.depth || entries.len() == 0 {
        Seq::empty()
    } else {
        sub_results(p, entries.drop_last(), dir, depth) + (if entries.last().kind
            == EntryKind::Directory && entries.last().readable && can_descend(
            p,
            entries.last().name@,
            entries.last().attributes,
        ) {
            search_tree(
                p,
                entries.last(),
                dir + seq!['\\'] + entries.last().name@,
                depth + 1,
            )
        } else {
            Seq::empty()
        })
    }
}

/// Everything a search of the readable directory `fs` at `path` returns:
/// the matches of its own listing, followed by the matches found below it.
pub open spec fn search_tree(p: ParamsView, fs: FsEntry, path: Seq<char>, depth: int)
    -> Seq<ResultView>
    decreases p.depth - depth, fs.entries@.len(), 1int,
{
    matches_of(p, fs.entries@, path) + sub_results(p, fs.entries@, path, depth)
}

impl SearchEngine {
    /// Whether `name` passes both the term and the extension filter.
    pub fn entry_is_match(p: &SearchEngineParameter, name: &String) -> (r: bool)
        ensures
            r == entry_matches(p@, name@),
    {
        let term_ok = match &p.term {
            Some(t) => str_contains(name.as_str(), t.as_str()),
            None => true,
        };
        let ext_ok = match &p.extension {
            Some(x) => ext_contains(name.as_str(), x.as_str()),
            None => true,
        };
        term_ok && ext_ok
    }

    /// Searches the directory `fs`, reached at `current_directory`, for
    /// entries matching `p`; `curr_depth` is how deep `fs` already lies.
    /// Fails exactly when the root of the search cannot be listed;
    /// unreadable directories further down contribute zero results.
    pub fn search(
        p: &SearchEngineParameter,
        fs: &FsEntry,
        current_directory: &str,
        curr_depth: usize,
    ) -> (r: Result<Vec<SearchEngineResult>, SearchError>)
        ensures
            fs.readable ==> (match r {
                Ok(v) => v.deep_view() == search_tree(
                    p@,
                    *fs,
                    current_directory@,
                    curr_depth as int,
                ),
                Err(_) => false,
            }),
            !fs.readable ==> (r matches Err(e) && e == SearchError::Unreadable),
        decreases p.depth - curr_depth, fs.entries@.len(),
    {
        if !fs.readable {
            return Err(SearchError::Unreadable);
        }
        let ghost dirv = current_directory@;
        let n = fs.entries.len();
        let mut results: Vec<SearchEngineResult> = Vec::new();
        let mut i: usize = 0;
        while i < n
            invariant
                0 <= i <= n,
                n == fs.entries@.len(),
                results.deep_view() =~= matches_of(p@, fs.entries@.take(i as int), dirv),
                dirv == current_directory@,
            decreases n - i,
        {
            let e = &fs.entries[i];
            if Self::entry_is_match(p, &e.name) {
                results.push(SearchEngineResult::from_entry(e, current_directory));
            }
            proof {
                assert(fs.entries@.take(i + 1).drop_last() =~= fs.entries@.take(i as int));
                assert(fs.entries@.take(i + 1).last() == fs.entries@[i as int]);
                assert(results.deep_view() =~= matches_of(
                    p@,
                    fs.entries@.take(i + 1),
                    dirv,
                ));
            }
            i += 1;
        }
        proof {
            assert(fs.entries@.take(n as int) =~= fs.entries@);
        }
        if curr_depth >= p.depth {
            proof {
                assert(results.deep_view() =~= search_tree(
                    p@,
                    *fs,
                    dirv,
                    curr_depth as int,
                ));
            }
            return Ok(results);
        }
        let mut i: usize = 0;
        while i < n
            invariant
                0 <= i <= n,
                n == fs.entries@.len(),
                curr_depth < p.depth,
                p.depth == p@.depth,
                dirv == current_directory@,
                results.deep_view() =~= matches_of(p@, fs.entries@, dirv) + sub_results(
                    p@,
                    fs.entries@.take(i as int),
                    dirv,
                    curr_depth as int,
                ),
            decreases n - i,
        {
            let ghost before = results.deep_view();
            let ghost ev = fs.entries@[i as int];
            let ghost contributed = (if ev.kind == EntryKind::Directory && ev.readable
                && can_descend(p@, ev.name@, ev.attributes) {
                search_tree(p@, ev, dirv + seq!['\\'] + ev.name@, curr_depth + 1)
            } else {
                Seq::<ResultView>::empty()
            });
            let e = &fs.entries[i];
            if e.kind == EntryKind::Directory && SearchEngineParameter::dir_can_be_searched(
                e,
                p,
            ) {
                let child_path = join_path(current_directory, &e.name);
                match Self::search(p, e, child_path.as_str(), curr_depth + 1) {
                    Ok(mut sub) => {
                        let ghost subv = sub.deep_view();
                        proof {
                            assert(subv == contributed);
                        }
                        results.append(&mut sub);
                        proof {
                            assert(results.deep_view() =~= before + contributed);
                        }
                    },
                    Err(_) => {
                        proof {
                            assert(!ev.readable);
                            assert(results.deep_view() =~= before + contributed);
                        }
                    },
                }
            } else {
                proof {
                    assert(results.deep_view() =~= before + contributed);
                }
            }
            proof {
                assert(fs.entries@.take(i + 1).drop_last() =~= fs.entries@.take(i as int));
                assert(fs.entries@.take(i + 1).last() == fs.entries@[i as int]);
                assert(sub_results(p@, fs.entries@.take(i + 1), dirv, curr_depth as int)
                    == sub_results(p@, fs.entries@.take(i as int), dirv, curr_depth as int)
                    + contributed);
                assert(results.deep_view() =~= matches_of(p@, fs.entries@, dirv)
                    + sub_results(p@, fs.entries@.take(i + 1), dirv, curr_depth as int));
            }
            i += 1;
        }
        proof {
            assert(fs.entries@.take(n as int) =~= fs.entries@);
        }
        Ok(results)
    }
}

/// At the depth bound a search returns only the matches of the root's own
/// listing: it never descends.
pub proof fn lemma_no_descent_at_max_depth(
    p: ParamsView,
    fs: FsEntry,
    path: Seq<char>,
    depth: int,
)
    requires
        depth >= p.depth,
    ensures
        search_tree(p, fs, path, depth) == matches_of(p, fs.entries@, path),
{
    assert(search_tree(p, fs, path, depth) =~= matches_of(p, fs.entries@, path));
}

proof fn lemma_matches_of_filtered(p: ParamsView, entries: Seq<FsEntry>, dir: Seq<char>)
    ensures
        forall|k: int|
            0 <= k < matches_of(p, entries, dir).len() ==> entry_matches(
                p,
                #[trigger] matches_of(p, entries, dir)[k].name,
            ),
    decreases entries.len(),
{
    if entries.len() > 0 {
        lemma_matches_of_filtered(p, entries.drop_last(), dir);
    }
}

proof fn lemma_sub_results_filtered(
    p: ParamsView,
    entries: Seq<FsEntry>,
    dir: Seq<char>,
    depth: int,
)
    ensures
        forall|k: int|
            0 <= k < sub_results(p, entries, dir, depth).len() ==> entry_matches(
                p,
                #[trigger] sub_results(p, entries, dir, depth)[k].name,
            ),
    decreases p.depth - depth, entries.len(), 0int,
{
    if depth >= p.depth || entries.len() == 0 {
    } else {
        lemma_sub_results_filtered(p, entries.drop_last(), dir, depth);
        let e = entries.last();
        if e.kind == EntryKind::Directory && e.readable && can_descend(
            p,
            e.name@,
            e.attributes,
        ) {
            lemma_search_results_match(p, e, dir + seq!['\\'] + e.name@, depth + 1);
        }
    }
}

/// Every result of a search satisfies both the term filter and the
/// extension filter of the query, wherever in the subtree it was found.
pub proof fn lemma_search_results_match(
    p: ParamsView,
    fs: FsEntry,
    path: Seq<char>,
    depth: int,
)
    ensures
        forall|k: int|
            0 <= k < search_tree(p, fs, path, depth).len() ==> entry_matches(
                p,
                #[trigger] search_tree(p, fs, path, depth)[k].name,
            ),
    decreases p.depth - depth, fs.entries@.len(), 1int,
{
    lemma_matches_of_filtered(p, fs.entries@, path);
    lemma_sub_results_filtered(p, fs.entries@, path, depth);
}

} // verus!
