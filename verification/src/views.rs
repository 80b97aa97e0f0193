//! View helpers shared by the executable structures: sequences of links,
//! link/item pairs and names, lifted into the model types.

use vstd::prelude::*;

use crate::item::Item;
use crate::link::{Link, TrackPath};
use crate::model::{ItemModel, LinkModel, PathModel};

verus! {

/// Model of a sequence of staged or logged `(link, item)` records.
pub open spec fn link_entries_model(s: Seq<(Link, Item)>) -> Seq<(LinkModel, ItemModel)> {
    Seq::new(s.len(), |i: int| (s[i].0@, s[i].1@))
}

/// Model of a sequence of collection names.
pub open spec fn names_model(s: Seq<String>) -> Seq<Seq<char>> {
    Seq::new(s.len(), |i: int| s[i]@)
}

/// Model of a back-track index.
pub open spec fn track_model(s: Seq<(Link, TrackPath)>) -> Seq<(LinkModel, PathModel)> {
    Seq::new(s.len(), |i: int| (s[i].0@, s[i].1@))
}

/// Model of a sequence of links.
pub open spec fn links_model(s: Seq<Link>) -> Seq<LinkModel> {
    Seq::new(s.len(), |i: int| s[i]@)
}

} // verus!
