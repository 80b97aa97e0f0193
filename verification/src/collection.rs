//! A collection: a named, durable store mapping links to items.  `records`
//! mirrors the append-only backing file (one record per committed write);
//! `values` is the authoritative in-memory state reconstructed on top of it,
//! each row carrying the item and its back-track index.

use vstd::prelude::*;

use crate::assoc::{
    assoc_get, assoc_index_of, assoc_put, assoc_remove, lemma_assoc_index_none,
    lemma_assoc_index_of, lemma_assoc_index_unique,
};
use crate::errors::DBError;
use crate::item::Item;
use crate::link::{Link, TrackPath};
use crate::model::{CollectionModel, LinkModel, RowModel};
use crate::views::{link_entries_model, track_model};

verus! {

/// One stored row: the item and its back-track index, which records every
/// referencing link together with the path at which the reference lives.
#[derive(Debug)]
pub struct LinkData {
    pub item: Item,
    pub back_track: Vec<(Link, TrackPath)>,
}

impl View for LinkData {
    type V = RowModel;

    open spec fn view(&self) -> RowModel {
        RowModel { item: self.item@, back_track: track_model(self.back_track@) }
    }
}

impl LinkData {
    /// A row with an empty back-track index.
    pub fn new(item: Item) -> (r: LinkData)
        ensures
            r@ == (RowModel { item: item@, back_track: Seq::empty() }),
    {
        let r = LinkData { item, back_track: Vec::new() };
        proof {
            assert(r@.back_track =~= Seq::<(LinkModel, crate::model::PathModel)>::empty());
        }
        r
    }

    /// A copy denoting the same row.
    #[verifier::loop_isolation(false)]
    pub fn dup(&self) -> (r: LinkData)
        ensures
            r@ == self@,
    {
        let mut bt: Vec<(Link, TrackPath)> = Vec::new();
        let mut i: usize = 0;
        while i < self.back_track.len()
            invariant
                0 <= i <= self.back_track@.len(),
                bt@.len() == i,
                forall|j: int|
                    0 <= j < i ==> (#[trigger] bt@[j]).0@ == self.back_track@[j].0@ && bt@[j].1@
                        == self.back_track@[j].1@,
            decreases self.back_track@.len() - i,
        {
            let entry = &self.back_track[i];
            bt.push((entry.0.clone(), entry.1.clone()));
            i += 1;
        }
        let r = LinkData { item: self.item.dup(), back_track: bt };
        proof {
            assert(track_model(r.back_track@) =~= track_model(self.back_track@));
        }
        r
    }

    /// Record that `link` references this row's item at `path`.
    #[verifier::loop_isolation(false)]
    pub fn bt_put(&mut self, link: Link, path: TrackPath)
        ensures
            final(self)@.item == old(self)@.item,
            final(self)@.back_track == assoc_put(old(self)@.back_track, link@, path@),
    {
        let ghost s = track_model(self.back_track@);
        proof {
            lemma_assoc_index_of(s, link@);
        }
        let mut i: usize = 0;
        while i < self.back_track.len()
            invariant
                0 <= i <= self.back_track@.len(),
                s == track_model(self.back_track@),
                self.item == old(self).item,
                forall|j: int| 0 <= j < i ==> (#[trigger] self.back_track@[j]).0@ != link@,
            decreases self.back_track@.len() - i,
        {
            if self.back_track[i].0.same_link(&link) {
                proof {
                    lemma_assoc_index_unique(s, link@, i as int);
                }
                self.back_track.remove(i);
                self.back_track.insert(i, (link, path));
                proof {
                    assert(track_model(self.back_track@) =~= s.update(
                        i as int,
                        (link@, path@),
                    ));
                }
                return ;
            }
            i += 1;
        }
        proof {
            lemma_assoc_index_none(s, link@);
        }
        self.back_track.push((link, path));
        proof {
            assert(track_model(self.back_track@) =~= s.push((link@, path@)));
        }
    }

    /// Retract the back-track entry of `link`, if present.
    #[verifier::loop_isolation(false)]
    pub fn bt_remove(&mut self, link: &Link)
        ensures
            final(self)@.item == old(self)@.item,
            final(self)@.back_track == assoc_remove(old(self)@.back_track, link@),
    {
        let ghost s = track_model(self.back_track@);
        proof {
            lemma_assoc_index_of(s, link@);
        }
        let mut i: usize = 0;
        while i < self.back_track.len()
            invariant
                0 <= i <= self.back_track@.len(),
                s == track_model(self.back_track@),
                self.item == old(self).item,
                forall|j: int| 0 <= j < i ==> (#[trigger] self.back_track@[j]).0@ != link@,
            decreases self.back_track@.len() - i,
        {
            if self.back_track[i].0.same_link(link) {
                proof {
                    lemma_assoc_index_unique(s, link@, i as int);
                }
                self.back_track.remove(i);
                proof {
                    assert(track_model(self.back_track@) =~= s.remove(i as int));
                }
                return ;
            }
            i += 1;
        }
        proof {
            lemma_assoc_index_none(s, link@);
            assert(track_model(self.back_track@) =~= s);
        }
    }
}

/// A named, durable store of link-addressed rows.
#[derive(Debug)]
pub struct Collection {
    pub name: String,
    pub records: Vec<(Link, Item)>,
    pub values: Vec<(Link, LinkData)>,
}

/// Model of the row map.
pub open spec fn rows_model(s: Seq<(Link, LinkData)>) -> Seq<(LinkModel, RowModel)> {
    Seq::new(s.len(), |i: int| (s[i].0@, s[i].1@))
}

impl View for Collection {
    type V = CollectionModel;

    open spec fn view(&self) -> CollectionModel {
        CollectionModel {
            name: self.name@,
            log: link_entries_model(self.records@),
            rows: rows_model(self.values@),
        }
    }
}

impl Collection {
    /// An empty collection.
    pub fn new(name: String) -> (r: Collection)
        ensures
            r@ == (CollectionModel { name: name@, log: Seq::empty(), rows: Seq::empty() }),
    {
        let r = Collection { name, records: Vec::new(), values: Vec::new() };
        proof {
            assert(r@.log =~= Seq::<(LinkModel, crate::model::ItemModel)>::empty());
            assert(r@.rows =~= Seq::<(LinkModel, RowModel)>::empty());
        }
        r
    }

    /// The stored item under `link`, or a not-found error.
    pub fn get_value(&self, link: &Link) -> (r: Result<Item, DBError>)
        ensures
            match assoc_get(self@.rows, link@) {
                Some(row) => r is Ok && r->Ok_0@ == row.item,
                None => r == Err::<Item, DBError>(DBError::UnresolvedReference),
            },
    {
        match self.row_get(link) {
            Some(data) => Ok(data.item.dup()),
            None => Err(DBError::UnresolvedReference),
        }
    }

    /// The row of `link`, if any.
    #[verifier::loop_isolation(false)]
    pub fn row_get(&self, link: &Link) -> (r: Option<&LinkData>)
        ensures
            match r {
                Some(d) => assoc_get(self@.rows, link@) == Some(d@),
                None => assoc_get(self@.rows, link@) is None,
            },
    {
        let ghost s = rows_model(self.values@);
        let mut i: usize = 0;
        while i < self.values.len()
            invariant
                0 <= i <= self.values@.len(),
                forall|j: int| 0 <= j < i ==> (#[trigger] self.values@[j]).0@ != link@,
            decreases self.values@.len() - i,
        {
            if self.values[i].0.same_link(link) {
                proof {
                    lemma_assoc_index_unique(s, link@, i as int);
                }
                return Some(&self.values[i].1);
            }
            i += 1;
        }
        proof {
            lemma_assoc_index_none(s, link@);
        }
        None
    }

    /// Bind `link` to `data`, replacing any existing row.
    #[verifier::loop_isolation(false)]
    pub fn row_put(&mut self, link: Link, data: LinkData)
        ensures
            final(self)@.name == old(self)@.name,
            final(self)@.log == old(self)@.log,
            final(self)@.rows == assoc_put(old(self)@.rows, link@, data@),
    {
        let ghost s = rows_model(self.values@);
        proof {
            lemma_assoc_index_of(s, link@);
        }
        let mut i: usize = 0;
        while i < self.values.len()
            invariant
                0 <= i <= self.values@.len(),
                s == rows_model(self.values@),
                self.name == old(self).name,
                self.records == old(self).records,
                forall|j: int| 0 <= j < i ==> (#[trigger] self.values@[j]).0@ != link@,
            decreases self.values@.len() - i,
        {
            if self.values[i].0.same_link(&link) {
                proof {
                    lemma_assoc_index_unique(s, link@, i as int);
                }
                self.values.remove(i);
                self.values.insert(i, (link, data));
                proof {
                    assert(rows_model(self.values@) =~= s.update(i as int, (link@, data@)));
                }
                return ;
            }
            i += 1;
        }
        proof {
            lemma_assoc_index_none(s, link@);
        }
        self.values.push((link, data));
        proof {
            assert(rows_model(self.values@) =~= s.push((link@, data@)));
        }
    }

    /// Remove the row of `link`, if present.
    #[verifier::loop_isolation(false)]
    pub fn row_remove(&mut self, link: &Link)
        ensures
            final(self)@.name == old(self)@.name,
            final(self)@.log == old(self)@.log,
            final(self)@.rows == assoc_remove(old(self)@.rows, link@),
    {
        let ghost s = rows_model(self.values@);
        proof {
            lemma_assoc_index_of(s, link@);
        }
        let mut i: usize = 0;
        while i < self.values.len()
            invariant
                0 <= i <= self.values@.len(),
                s == rows_model(self.values@),
                self.name == old(self).name,
                self.records == old(self).records,
                forall|j: int| 0 <= j < i ==> (#[trigger] self.values@[j]).0@ != link@,
            decreases self.values@.len() - i,
        {
            if self.values[i].0.same_link(link) {
                proof {
                    lemma_assoc_index_unique(s, link@, i as int);
                }
                self.values.remove(i);
                proof {
                    assert(rows_model(self.values@) =~= s.remove(i as int));
                }
                return ;
            }
            i += 1;
        }
        proof {
            lemma_assoc_index_none(s, link@);
            assert(rows_model(self.values@) =~= s);
        }
    }


    /// Retract, from the back-track index of `target`'s row, the entry keyed
    /// by `from`; a missing row is tolerated.
    #[verifier::loop_isolation(false)]
    pub fn row_bt_remove(&mut self, target: &Link, from: &Link)
        ensures
            final(self)@.name == old(self)@.name,
            final(self)@.log == old(self)@.log,
            final(self)@.rows == match assoc_get(old(self)@.rows, target@) {
                Some(row) => assoc_put(
                    old(self)@.rows,
                    target@,
                    (RowModel { item: row.item, back_track: assoc_remove(row.back_track, from@) }),
                ),
                None => old(self)@.rows,
            },
    {
        let ghost s = rows_model(self.values@);
        proof {
            lemma_assoc_index_of(s, target@);
        }
        let mut i: usize = 0;
        while i < self.values.len()
            invariant
                0 <= i <= self.values@.len(),
                s == rows_model(self.values@),
                self.name == old(self).name,
                self.records == old(self).records,
                forall|j: int| 0 <= j < i ==> (#[trigger] self.values@[j]).0@ != target@,
            decreases self.values@.len() - i,
        {
            if self.values[i].0.same_link(target) {
                proof {
                    lemma_assoc_index_unique(s, target@, i as int);
                }
                let mut entry = self.values.remove(i);
                entry.1.bt_remove(from);
                self.values.insert(i, entry);
                proof {
                    assert(rows_model(self.values@) =~= s.update(
                        i as int,
                        (s[i as int].0, rows_model(self.values@)[i as int].1),
                    ));
                }
                return ;
            }
            i += 1;
        }
        proof {
            lemma_assoc_index_none(s, target@);
        }
    }

    /// Record, in the back-track index of `target`'s row, that `from`
    /// references it at `path`; reports whether the row exists.
    #[verifier::loop_isolation(false)]
    pub fn row_bt_put(&mut self, target: &Link, from: &Link, path: TrackPath) -> (found: bool)
        ensures
            final(self)@.name == old(self)@.name,
            final(self)@.log == old(self)@.log,
            match assoc_get(old(self)@.rows, target@) {
                Some(row) => found && final(self)@.rows == assoc_put(
                    old(self)@.rows,
                    target@,
                    (RowModel {
                        item: row.item,
                        back_track: assoc_put(row.back_track, from@, path@),
                    }),
                ),
                None => !found && final(self)@.rows == old(self)@.rows,
            },
    {
        let ghost s = rows_model(self.values@);
        proof {
            lemma_assoc_index_of(s, target@);
        }
        let mut i: usize = 0;
        while i < self.values.len()
            invariant
                0 <= i <= self.values@.len(),
                s == rows_model(self.values@),
                self.name == old(self).name,
                self.records == old(self).records,
                forall|j: int| 0 <= j < i ==> (#[trigger] self.values@[j]).0@ != target@,
            decreases self.values@.len() - i,
        {
            if self.values[i].0.same_link(target) {
                proof {
                    lemma_assoc_index_unique(s, target@, i as int);
                }
                let mut entry = self.values.remove(i);
                entry.1.bt_put(from.clone(), path);
                self.values.insert(i, entry);
                proof {
                    assert(rows_model(self.values@) =~= s.update(
                        i as int,
                        (s[i as int].0, rows_model(self.values@)[i as int].1),
                    ));
                }
                return true;
            }
            i += 1;
        }
        proof {
            lemma_assoc_index_none(s, target@);
        }
        false
    }

    /// Append one committed record to the log, mirroring the append to the
    /// backing file.
    pub fn log_append(&mut self, link: Link, item: Item)
        ensures
            final(self)@.name == old(self)@.name,
            final(self)@.log == old(self)@.log.push((link@, item@)),
            final(self)@.rows == old(self)@.rows,
    {
        self.records.push((link, item));
        proof {
            let n = self.records@.len() - 1;
            assert(link_entries_model(self.records@) =~= old(self)@.log.push(
                (self.records@[n].0@, self.records@[n].1@),
            ));
        }
    }

    /// A copy denoting the same collection.
    #[verifier::loop_isolation(false)]
    pub fn dup(&self) -> (r: Collection)
        ensures
            r@ == self@,
    {
        let mut records: Vec<(Link, Item)> = Vec::new();
        let mut i: usize = 0;
        while i < self.records.len()
            invariant
                0 <= i <= self.records@.len(),
                records@.len() == i,
                forall|j: int|
                    0 <= j < i ==> (#[trigger] records@[j]).0@ == self.records@[j].0@
                        && records@[j].1@ == self.records@[j].1@,
            decreases self.records@.len() - i,
        {
            let entry = &self.records[i];
            records.push((entry.0.clone(), entry.1.dup()));
            i += 1;
        }
        let mut values: Vec<(Link, LinkData)> = Vec::new();
        let mut k: usize = 0;
        while k < self.values.len()
            invariant
                0 <= k <= self.values@.len(),
                values@.len() == k,
                forall|j: int|
                    0 <= j < k ==> (#[trigger] values@[j]).0@ == self.values@[j].0@
                        && values@[j].1@ == self.values@[j].1@,
            decreases self.values@.len() - k,
        {
            let entry = &self.values[k];
            values.push((entry.0.clone(), entry.1.dup()));
            k += 1;
        }
        let r = Collection { name: self.name.clone(), records, values };
        proof {
            assert(link_entries_model(r.records@) =~= link_entries_model(self.records@));
            assert(rows_model(r.values@) =~= rows_model(self.values@));
        }
        r
    }
}

} // verus!
