//! The host's session state: the current result set, the sort state, the
//! settings and the tree index, owned in one place and passed by
//! reference — no hidden aliasing.

use vstd::prelude::*;

use crate::memory::index::Index;
use crate::search_engine::result::SearchEngineResult;
use crate::settings::Settings;
use crate::sorting::SortDirection;

verus! {

/// Everything a session keeps between interactions.
pub struct Cache {
    pub current_results: Vec<SearchEngineResult>,
    pub result_sort_direction: (usize, SortDirection),
    pub settings: Settings,
    pub index: Index,
}

impl Cache {
    /// A fresh session: no results, nothing sorted yet, no favorites, an
    /// empty index stamped with the current time.
    pub fn new(now: i64) -> (r: Cache)
        ensures
            r.current_results@ == Seq::<SearchEngineResult>::empty(),
            r.result_sort_direction.0 == 0usize,
            r.result_sort_direction.1 == SortDirection::Unset,
            r.settings.favorite_folders@ == Seq::<
                crate::settings::FavoriteFolder,
            >::empty(),
            r.index.root is None,
            r.index.modified_date == now,
    {
        Cache {
            current_results: Vec::new(),
            result_sort_direction: (0, SortDirection::Unset),
            settings: Settings::new(),
            index: Index::new(now),
        }
    }
}

} // verus!
