//! Links and paths.  A link is an opaque address: the name of the owning
//! collection plus an identifier unique within it.  It never embeds the value
//! it names.

use vstd::prelude::*;

use crate::model::{LinkModel, PathModel, PathSegModel};

verus! {

/// An address identifying a stored item within a named collection.
#[derive(Debug)]
pub struct Link {
    pub prefix: String,
    pub id: u64,
}

impl View for Link {
    type V = LinkModel;

    open spec fn view(&self) -> LinkModel {
        LinkModel { prefix: self.prefix@, id: self.id }
    }
}

impl Link {
    /// A link with the given collection name and identifier.  Freshness of
    /// the identifier is the caller's affair: the insert buffer mints them.
    pub fn create(collection_name: String, id: u64) -> (r: Link)
        ensures
            r@ == (LinkModel { prefix: collection_name@, id: id }),
    {
        Link { prefix: collection_name, id }
    }

    /// The name of the owning collection.
    pub fn get_prefix(&self) -> (r: &String)
        ensures
            r@ == self@.prefix,
    {
        &self.prefix
    }

    /// Whether two links address the same item.
    pub fn same_link(&self, other: &Link) -> (r: bool)
        ensures
            r == (self@ == other@),
    {
        self.id == other.id && self.prefix == other.prefix
    }
}

impl Clone for Link {
    fn clone(&self) -> (r: Self)
        ensures
            r@ == self@,
    {
        Link { prefix: self.prefix.clone(), id: self.id }
    }
}

/// Where, inside a referencing item, a reference lives: recorded in the
/// back-track index of the referenced item.
#[derive(Debug)]
pub enum TrackPath {
    AtKey(String),
    AtIndex(usize),
    AtRoot,
}

impl View for TrackPath {
    type V = PathModel;

    open spec fn view(&self) -> PathModel {
        match self {
            TrackPath::AtKey(k) => PathModel::AtKey(k@),
            TrackPath::AtIndex(i) => PathModel::AtIndex(*i),
            TrackPath::AtRoot => PathModel::AtRoot,
        }
    }
}

impl Clone for TrackPath {
    fn clone(&self) -> (r: Self)
        ensures
            r@ == self@,
    {
        match self {
            TrackPath::AtKey(k) => TrackPath::AtKey(k.clone()),
            TrackPath::AtIndex(i) => TrackPath::AtIndex(*i),
            TrackPath::AtRoot => TrackPath::AtRoot,
        }
    }
}

/// One segment of a navigation path: a table key or an array index.
#[derive(Debug)]
pub enum PathSeg {
    Key(String),
    Index(usize),
}

impl View for PathSeg {
    type V = PathSegModel;

    open spec fn view(&self) -> PathSegModel {
        match self {
            PathSeg::Key(k) => PathSegModel::Key(k@),
            PathSeg::Index(i) => PathSegModel::Index(*i),
        }
    }
}

impl Clone for PathSeg {
    fn clone(&self) -> (r: Self)
        ensures
            r@ == self@,
    {
        match self {
            PathSeg::Key(k) => PathSeg::Key(k.clone()),
            PathSeg::Index(i) => PathSeg::Index(*i),
        }
    }
}

/// A path into nested containers, one segment per hop.
#[derive(Debug)]
pub struct PathToValue {
    pub segments: Vec<PathSeg>,
}

impl View for PathToValue {
    type V = Seq<PathSegModel>;

    open spec fn view(&self) -> Seq<PathSegModel> {
        Seq::new(self.segments@.len(), |i: int| self.segments@[i]@)
    }
}

impl PathToValue {
    pub fn new(segments: Vec<PathSeg>) -> (r: PathToValue)
        ensures
            r.segments@ == segments@,
    {
        PathToValue { segments }
    }
}

impl Clone for PathToValue {
    #[verifier::loop_isolation(false)]
    fn clone(&self) -> (r: Self)
        ensures
            r@ == self@,
    {
        let mut segments: Vec<PathSeg> = Vec::new();
        let mut i: usize = 0;
        while i < self.segments.len()
            invariant
                0 <= i <= self.segments@.len(),
                segments@.len() == i,
                forall|j: int| 0 <= j < i ==> (#[trigger] segments@[j])@ == self.segments@[j]@,
            decreases self.segments@.len() - i,
        {
            segments.push(self.segments[i].clone());
            i += 1;
        }
        let r = PathToValue { segments };
        proof {
            assert(r@ =~= self@);
        }
        r
    }
}

} // verus!
