//! The fixed table of icon resources the host renders, keyed by what the
//! icon is for. Loading the bitmaps is the host's concern; this core only
//! owns the paths.

use vstd::prelude::*;

verus! {

/// What an icon resource is used for.
#[derive(Clone, Copy, Debug, PartialEq, Eq, Hash, Structural)]
pub enum ResourceType {
    ArrowLeft,
    ArrowRight,
    Refresh,
    Copy,
}

/// The path each icon is loaded from.
pub open spec fn default_path(t: ResourceType) -> Seq<char> {
    match t {
        ResourceType::ArrowLeft => "./assets/arrow-left.png"@,
        ResourceType::ArrowRight => "./assets/arrow-right.png"@,
        ResourceType::Refresh => "./assets/refresh.png"@,
        ResourceType::Copy => "./assets/copy.png"@,
    }
}

/// The icon-path table.
pub struct Resources {
    resource_paths: Vec<(ResourceType, String)>,
}

impl Resources {
    /// The table holds exactly the four icons, each under its path.
    pub closed spec fn well_formed(&self) -> bool {
        self.resource_paths@.len() == 4 && self.resource_paths@[0].0
            == ResourceType::ArrowLeft && self.resource_paths@[0].1@ == default_path(
            ResourceType::ArrowLeft,
        ) && self.resource_paths@[1].0 == ResourceType::ArrowRight
            && self.resource_paths@[1].1@ == default_path(ResourceType::ArrowRight)
            && self.resource_paths@[2].0 == ResourceType::Refresh
            && self.resource_paths@[2].1@ == default_path(ResourceType::Refresh)
            && self.resource_paths@[3].0 == ResourceType::Copy
            && self.resource_paths@[3].1@ == default_path(ResourceType::Copy)
    }

    /// Builds the table of the four icon paths.
    pub fn new() -> (r: Resources)
        ensures
            r.well_formed(),
    {
        let mut data: Vec<(ResourceType, String)> = Vec::new();
        data.push((ResourceType::ArrowLeft, "./assets/arrow-left.png".to_owned()));
        data.push((ResourceType::ArrowRight, "./assets/arrow-right.png".to_owned()));
        data.push((ResourceType::Refresh, "./assets/refresh.png".to_owned()));
        data.push((ResourceType::Copy, "./assets/copy.png".to_owned()));
        Resources { resource_paths: data }
    }

    /// The path the icon `t` is loaded from.
    pub fn get_path(&self, t: ResourceType) -> (r: &String)
        requires
            self.well_formed(),
        ensures
            r@ == default_path(t),
    {
        match t {
            ResourceType::ArrowLeft => &self.resource_paths[0].1,
            ResourceType::ArrowRight => &self.resource_paths[1].1,
            ResourceType::Refresh => &self.resource_paths[2].1,
            ResourceType::Copy => &self.resource_paths[3].1,
        }
    }
}

} // verus!
