//! The per-entry record a search produces: name, absolute path, kind,
//! size and modification time, immutable once produced.

use vstd::prelude::*;
use vstd::string::StringExecFns;

use crate::fs_model::EntryKind;
use crate::fs_model::FsEntry;

verus! {

/// Mathematical image of a `SearchEngineResult`.
pub ghost struct ResultView {
    pub name: Seq<char>,
    pub full_path: Seq<char>,
    pub modified: int,
    pub file_type: EntryKind,
    pub size: int,
}

/// One matched filesystem entry.
#[derive(Debug)]
pub struct SearchEngineResult {
    pub name: String,
    pub modified: i64,
    pub file_type: EntryKind,
    pub size: u64,
    pub full_path: String,
}

impl View for SearchEngineResult {
    type V = ResultView;

    open spec fn view(&self) -> ResultView {
        ResultView {
            name: self.name@,
            full_path: self.full_path@,
            modified: self.modified as int,
            file_type: self.file_type,
            size: self.size as int,
        }
    }
}

impl DeepView for SearchEngineResult {
    type V = ResultView;

    open spec fn deep_view(&self) -> ResultView {
        self.view()
    }
}

impl Clone for SearchEngineResult {
    /// Results are cheaply cloned for re-sort and re-page operations.
    fn clone(&self) -> (r: Self)
        ensures
            r == *self,
    {
        SearchEngineResult {
            name: self.name.clone(),
            modified: self.modified,
            file_type: self.file_type,
            size: self.size,
            full_path: self.full_path.clone(),
        }
    }
}

/// The record a directory entry turns into when it matches, with its
/// absolute path formed from the directory it was listed in.
pub open spec fn result_view_of(e: FsEntry, dir: Seq<char>) -> ResultView {
    ResultView {
        name: e.name@,
        full_path: dir + seq!['\\'] + e.name@,
        modified: e.modified as int,
        file_type: e.kind,
        size: e.size as int,
    }
}

/// Appends `\name` to a directory path.
pub fn join_path(dir: &str, name: &str) -> (r: String)
    ensures
        r@ == dir@ + seq!['\\'] + name@,
{
    let mut s = dir.to_owned();
    proof {
        reveal_strlit("\\");
        assert("\\"@ =~= seq!['\\']);
    }
    s.append("\\");
    s.append(name);
    proof {
        assert(s@ =~= dir@ + seq!['\\'] + name@);
    }
    s
}

impl SearchEngineResult {
    /// Builds the result record for the entry `e` listed in `dir`.
    pub fn from_entry(e: &FsEntry, dir: &str) -> (r: SearchEngineResult)
        ensures
            r@ == result_view_of(*e, dir@),
    {
        SearchEngineResult {
            name: e.name.clone(),
            modified: e.modified,
            file_type: e.kind,
            size: e.size,
            full_path: join_path(dir, e.name.as_str()),
        }
    }
}

} // verus!
