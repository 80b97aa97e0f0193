//! Transaction-scoped working sets: the insert buffer staging writes that are
//! not yet durable, and the filter buffer holding the links currently matched
//! by a query chain.

use vstd::prelude::*;

use crate::assoc::{
    assoc_get, assoc_index_of, assoc_put, lemma_assoc_index_none, lemma_assoc_index_of,
    lemma_assoc_index_unique,
};
use crate::errors::DBError;
use crate::item::Item;
use crate::link::Link;
use crate::model::{BufferModel, LinkModel};
use crate::views::{link_entries_model, links_model, names_model};

verus! {

/// In-memory staging area of one transaction: writes in staging order, the
/// collections marked for dropping, a changed flag, and the next fresh link
/// identifier.
#[derive(Debug)]
pub struct InsertBuffer {
    pub items: Vec<(Link, Item)>,
    pub dropped_collections: Vec<String>,
    pub changed: bool,
    pub next_id: u64,
}

impl View for InsertBuffer {
    type V = BufferModel;

    open spec fn view(&self) -> BufferModel {
        BufferModel {
            entries: link_entries_model(self.items@),
            dropped: names_model(self.dropped_collections@),
            changed: self.changed,
            next_id: self.next_id,
        }
    }
}

impl InsertBuffer {
    /// An empty buffer whose fresh identifiers start at `next_id`.
    pub fn new(next_id: u64) -> (r: InsertBuffer)
        ensures
            r@ == (BufferModel {
                entries: Seq::empty(),
                dropped: Seq::empty(),
                changed: false,
                next_id: next_id,
            }),
    {
        let r = InsertBuffer {
            items: Vec::new(),
            dropped_collections: Vec::new(),
            changed: false,
            next_id,
        };
        proof {
            assert(r@.entries =~= Seq::<(LinkModel, crate::model::ItemModel)>::empty());
            assert(r@.dropped =~= Seq::<Seq<char>>::empty());
        }
        r
    }

    /// A fresh link under `collection_name`, or an error when the identifier
    /// space is exhausted.
    pub fn mint(&mut self, collection_name: String) -> (r: Result<Link, DBError>)
        ensures
            final(self)@.entries == old(self)@.entries,
            final(self)@.dropped == old(self)@.dropped,
            final(self)@.changed == old(self)@.changed,
            old(self)@.next_id < u64::MAX ==> r is Ok && r->Ok_0@ == (LinkModel {
                prefix: collection_name@,
                id: old(self)@.next_id,
            }) && final(self)@.next_id == old(self)@.next_id + 1,
            old(self)@.next_id == u64::MAX ==> r == Err::<Link, DBError>(
                DBError::InternalConsistency,
            ) && final(self)@.next_id == old(self)@.next_id,
    {
        if self.next_id == u64::MAX {
            return Err(DBError::InternalConsistency);
        }
        let id = self.next_id;
        self.next_id = id + 1;
        Ok(Link::create(collection_name, id))
    }

    /// Stage `item` under `link`, replacing any earlier staging of the same
    /// link, and mark the buffer changed.
    #[verifier::loop_isolation(false)]
    pub fn insert(&mut self, link: Link, item: Item)
        ensures
            final(self)@.entries == assoc_put(old(self)@.entries, link@, item@),
            final(self)@.dropped == old(self)@.dropped,
            final(self)@.changed == true,
            final(self)@.next_id == old(self)@.next_id,
    {
        let ghost s = link_entries_model(self.items@);
        proof {
            lemma_assoc_index_of(s, link@);
        }
        let ghost i0 = assoc_index_of(s, link@);
        let mut i: usize = 0;
        while i < self.items.len()
            invariant
                0 <= i <= self.items@.len(),
                s == link_entries_model(self.items@),
                i0 == assoc_index_of(s, link@),
                self.dropped_collections == old(self).dropped_collections,
                self.next_id == old(self).next_id,
                forall|j: int| 0 <= j < i ==> (#[trigger] self.items@[j]).0@ != link@,
            decreases self.items@.len() - i,
        {
            if self.items[i].0.same_link(&link) {
                proof {
                    lemma_assoc_index_unique(s, link@, i as int);
                }
                self.items.remove(i);
                self.items.insert(i, (link, item));
                self.changed = true;
                proof {
                    assert(link_entries_model(self.items@) =~= s.update(i as int, (link@, item@)));
                }
                return ;
            }
            i += 1;
        }
        proof {
            lemma_assoc_index_none(s, link@);
        }
        self.items.push((link, item));
        self.changed = true;
        proof {
            assert(link_entries_model(self.items@) =~= s.push((link@, item@)));
        }
    }

    /// The staged value of `link`, if any.
    #[verifier::loop_isolation(false)]
    pub fn get(&self, link: &Link) -> (r: Option<&Item>)
        ensures
            match r {
                Some(v) => assoc_get(self@.entries, link@) == Some(v@),
                None => assoc_get(self@.entries, link@) is None,
            },
    {
        let ghost s = link_entries_model(self.items@);
        let mut i: usize = 0;
        while i < self.items.len()
            invariant
                0 <= i <= self.items@.len(),
                forall|j: int| 0 <= j < i ==> (#[trigger] self.items@[j]).0@ != link@,
            decreases self.items@.len() - i,
        {
            if self.items[i].0.same_link(link) {
                proof {
                    lemma_assoc_index_unique(s, link@, i as int);
                }
                return Some(&self.items[i].1);
            }
            i += 1;
        }
        proof {
            lemma_assoc_index_none(s, link@);
        }
        None
    }

    /// Mark a whole collection for dropping at commit.
    pub fn add_collection_to_drop(&mut self, collection_name: String)
        ensures
            final(self)@.entries == old(self)@.entries,
            final(self)@.dropped == old(self)@.dropped.push(collection_name@),
            final(self)@.changed == old(self)@.changed,
            final(self)@.next_id == old(self)@.next_id,
    {
        self.dropped_collections.push(collection_name);
        proof {
            assert(names_model(self.dropped_collections@) =~= old(self)@.dropped.push(
                self.dropped_collections@[self.dropped_collections@.len() - 1]@,
            ));
        }
    }
}

/// The query-step-scoped set of links currently matching the query chain.
#[derive(Debug)]
pub struct FilterBuffer {
    pub ids: Vec<Link>,
}

impl View for FilterBuffer {
    type V = Seq<LinkModel>;

    open spec fn view(&self) -> Seq<LinkModel> {
        links_model(self.ids@)
    }
}

impl FilterBuffer {
    /// An empty working set.
    pub fn new() -> (r: FilterBuffer)
        ensures
            r@ == Seq::<LinkModel>::empty(),
    {
        let r = FilterBuffer { ids: Vec::new() };
        proof {
            assert(r@ =~= Seq::<LinkModel>::empty());
        }
        r
    }

    /// Append one matched link.
    pub fn push(&mut self, link: Link)
        ensures
            final(self)@ == old(self)@.push(link@),
    {
        self.ids.push(link);
        proof {
            assert(links_model(self.ids@) =~= old(self)@.push(self.ids@[self.ids@.len() - 1]@));
        }
    }
}

} // verus!
