//! The offline tree index: a persisted snapshot of a directory subtree,
//! rebuilt on demand, whose on-disk age tells the user how fresh it is.

use vstd::prelude::*;

use crate::fs_model::EntryKind;
use crate::fs_model::FsEntry;
use crate::memory::index_codec::parse_index;
use crate::memory::index_codec::ser_view;
use crate::memory::index_codec::serialize_index;

verus! {

/// One node of the persisted tree: a directory with its children, or a
/// file leaf.
#[derive(Debug, PartialEq)]
pub enum IndexType {
    Dir(String, Vec<IndexType>),
    File(String),
}

/// Mathematical image of an `IndexType` tree.
pub ghost enum IndexView {
    Dir { name: Seq<char>, entries: Seq<IndexView> },
    File { name: Seq<char> },
}

/// The image of one node.
pub open spec fn view_of_node(t: IndexType) -> IndexView
    decreases t,
{
    match t {
        IndexType::File(name) => IndexView::File { name: name@ },
        IndexType::Dir(name, children) => IndexView::Dir {
            name: name@,
            entries: view_of_list(children@),
        },
    }
}

/// The image of a list of nodes.
pub open spec fn view_of_list(ts: Seq<IndexType>) -> Seq<IndexView>
    decreases ts,
{
    if ts.len() == 0 {
        Seq::empty()
    } else {
        view_of_list(ts.drop_last()).push(view_of_node(ts.last()))
    }
}

/// A corrupt persisted snapshot: the load must fail loudly, not pass as
/// an absent index.
#[derive(Clone, Copy, PartialEq, Eq, Debug, Structural)]
pub enum IndexError {
    Corrupt,
}

/// The in-memory index: the tree of the last successful build or load,
/// and the timestamp the persisted snapshot carried.
pub struct Index {
    pub root: Option<IndexType>,
    pub modified_date: i64,
}

/// The tree a walk of `e` to `depth` builds: subdirectories recurse
/// while depth remains (and vanish once it is spent), files become
/// leaves, symlinks are skipped entirely. An unreadable directory keeps
/// its name and loses its listing.
pub open spec fn index_spec(e: FsEntry, depth: int) -> IndexView
    decreases depth, e.entries@.len() + 1, 0int,
{
    IndexView::Dir {
        name: e.name@,
        entries: if e.readable {
            index_children_spec(e.entries@, depth)
        } else {
            Seq::empty()
        },
    }
}

/// What each child contributes to a directory node, in listing order.
pub open spec fn index_children_spec(entries: Seq<FsEntry>, depth: int) -> Seq<IndexView>
    decreases depth, entries.len(), 1int,
{
    if entries.len() == 0 {
        Seq::empty()
    } else {
        index_children_spec(entries.drop_last(), depth) + (match entries.last().kind {
            EntryKind::Directory => if depth > 0 {
                seq![index_spec(entries.last(), depth - 1)]
            } else {
                Seq::empty()
            },
            EntryKind::Symlink => Seq::empty(),
            EntryKind::File => seq![(IndexView::File { name: entries.last().name@ })],
            EntryKind::Other => seq![(IndexView::File { name: entries.last().name@ })],
        })
    }
}

impl Index {
    /// An empty index stamped with the current time.
    pub fn new(now: i64) -> (r: Index)
        ensures
            r.root is None,
            r.modified_date == now,
    {
        Index { root: None, modified_date: now }
    }

    /// Builds the tree for the directory `e`, walking `depth` more levels.
    pub fn traverse_and_generate(e: &FsEntry, depth: usize) -> (r: IndexType)
        ensures
            view_of_node(r) == index_spec(*e, depth as int),
        decreases depth, e.entries@.len() + 1,
    {
        let mut children: Vec<IndexType> = Vec::new();
        let n = e.entries.len();
        let mut i: usize = 0;
        if e.readable {
            while i < n
                invariant
                    0 <= i <= n,
                    n == e.entries@.len(),
                    view_of_list(children@) =~= index_children_spec(
                        e.entries@.take(i as int),
                        depth as int,
                    ),
                decreases n - i,
            {
                let ghost before = children@;
                let c = &e.entries[i];
                match c.kind {
                    EntryKind::Directory => {
                        if depth > 0 {
                            children.push(Self::traverse_and_generate(c, depth - 1));
                        }
                    },
                    EntryKind::File | EntryKind::Other => {
                        children.push(IndexType::File(c.name.clone()));
                    },
                    EntryKind::Symlink => {},
                }
                proof {
                    let ev = e.entries@[i as int];
                    assert(e.entries@.take(i + 1).drop_last() =~= e.entries@.take(
                        i as int,
                    ));
                    assert(e.entries@.take(i + 1).last() == ev);
                    if children@.len() > before.len() {
                        assert(children@.drop_last() =~= before);
                        assert(view_of_list(children@) =~= view_of_list(before).push(
                            view_of_node(children@.last()),
                        ));
                    }
                    if ev.kind == EntryKind::Directory {
                        if depth > 0 {
                            assert(index_children_spec(e.entries@.take(i + 1),
                                depth as int) =~= index_children_spec(
                                e.entries@.take(i as int),
                                depth as int,
                            ) + seq![index_spec(ev, depth as int - 1)]);
                            assert(view_of_node(children@.last()) == index_spec(
                                ev,
                                depth as int - 1,
                            ));
                        } else {
                            assert(index_children_spec(e.entries@.take(i + 1),
                                depth as int) =~= index_children_spec(
                                e.entries@.take(i as int),
                                depth as int,
                            ));
                        }
                    } else if ev.kind == EntryKind::Symlink {
                        assert(index_children_spec(e.entries@.take(i + 1), depth as int)
                            =~= index_children_spec(
                            e.entries@.take(i as int),
                            depth as int,
                        ));
                    } else {
                        assert(index_children_spec(e.entries@.take(i + 1), depth as int)
                            =~= index_children_spec(
                            e.entries@.take(i as int),
                            depth as int,
                        ) + seq![(IndexView::File { name: ev.name@ })]);
                        assert(view_of_node(children@.last()) == (IndexView::File {
                            name: ev.name@,
                        }));
                    }
                    assert(view_of_list(children@) =~= index_children_spec(
                        e.entries@.take(i + 1),
                        depth as int,
                    ));
                }
                i += 1;
            }
            proof {
                assert(e.entries@.take(n as int) =~= e.entries@);
            }
        }
        IndexType::Dir(e.name.clone(), children)
    }

    /// Fully rebuilds the index from the directory `fs`, walking
    /// `max_depth` levels below it, and hands back the snapshot text to
    /// persist in place of any prior one.
    pub fn refresh(&mut self, fs: &FsEntry, max_depth: usize) -> (r: String)
        ensures
            final(self).modified_date == old(self).modified_date,
            (match final(self).root {
                Some(t) => view_of_node(t) == index_spec(*fs, max_depth as int) && r@
                    == ser_view(view_of_node(t)),
                None => false,
            }),
    {
        let tree = Self::traverse_and_generate(fs, max_depth);
        let text = serialize_index(&tree);
        self.root = Some(tree);
        text
    }

    /// Adopts the persisted snapshot: a missing one (`None`) leaves the
    /// index untouched, a parsable one replaces the tree and takes the
    /// snapshot file's modification time, a corrupt one fails and
    /// changes nothing.
    pub fn check_for_updates(&mut self, snapshot: Option<(&str, i64)>) -> (r: Result<
        (),
        IndexError,
    >)
        ensures
            snapshot is None ==> r is Ok && *final(self) == *old(self),
            (match snapshot {
                Some((text, mtime)) => match r {
                    Ok(_) => final(self).modified_date == mtime && (match final(self).root {
                        Some(u) => text@ == ser_view(view_of_node(u)),
                        None => false,
                    }) && (forall|v: IndexView|
                        text@ == ser_view(v) ==> (match final(self).root {
                            Some(u) => view_of_node(u) == v,
                            None => false,
                        })),
                    Err(e) => *final(self) == *old(self) && e == IndexError::Corrupt
                        && (forall|v: IndexView| text@ != ser_view(v)),
                },
                None => true,
            }),
    {
        match snapshot {
            None => Ok(()),
            Some((text, mtime)) => {
                match parse_index(text) {
                    Ok(tree) => {
                        self.root = Some(tree);
                        self.modified_date = mtime;
                        Ok(())
                    },
                    Err(e) => Err(e),
                }
            },
        }
    }
}

} // verus!
