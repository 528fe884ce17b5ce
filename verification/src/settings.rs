//! The favorites list: named folders the user pinned for quick
//! navigation. Persisting it is the host's concern; this core only keeps
//! the ordered list.

use vstd::prelude::*;

verus! {

/// One pinned folder.
#[derive(Debug)]
pub struct FavoriteFolder {
    pub name: String,
    pub path: String,
}

/// The user's persisted preferences: the ordered favorites list.
pub struct Settings {
    pub favorite_folders: Vec<FavoriteFolder>,
}

impl Settings {
    /// A settings value with no favorites yet.
    pub fn new() -> (r: Settings)
        ensures
            r.favorite_folders@ == Seq::<FavoriteFolder>::empty(),
    {
        Settings { favorite_folders: Vec::new() }
    }

    /// Appends one favorite at the end of the list.
    pub fn add_favorite_folder(&mut self, name: String, path: String)
        ensures
            final(self).favorite_folders@ == old(self).favorite_folders@.push(
                (FavoriteFolder { name, path }),
            ),
    {
        self.favorite_folders.push(FavoriteFolder { name, path });
    }
}

} // verus!
