//! The storage engine and transaction executor: flattening on insert,
//! depth-bounded dereferencing on read, dotted-path navigation, the operation
//! state machine, and the commit with back-track maintenance.

use vstd::prelude::*;

use crate::buffer::{FilterBuffer, InsertBuffer};
use crate::collection::Collection;
use crate::errors::DBError;
use crate::item::{elems_model, entries_model, table_lookup, Item, Primitive};
use crate::link::{Link, PathSeg, PathToValue, TrackPath};
use crate::model::{
    coll_index_of, colls_get, CollectionModel, ItemModel, LinkModel, PathSegModel, StoreModel,
};
use crate::query::{make_rules_spec, resolve_keys_spec, resolve_spec, ProjectQuery, ProjectionRules, Transaction};
use crate::semantics::{
    cond_value, fetch_elems_spec, fetch_entries_spec, fetch_fuel, fetch_spec, find_filter,
    find_result, find_sub_spec, find_sub_walk_spec, internal_name, link_lookup, matches_conds,
    nav_spec, rows_keys, skip_links_spec, stage_at_spec, stage_elems_spec, stage_entries_spec,
    stage_spec, value_lookup, FoundSubModel, LinkLookup,
};
use crate::FETCH_DEPTH_LIMIT;

verus! {

/// Model of the open collections.
pub open spec fn colls_model(s: Seq<Collection>) -> Seq<CollectionModel> {
    Seq::new(s.len(), |i: int| s[i]@)
}

/// The buffer entries seen through an optional buffer reference.
pub open spec fn opt_entries(buf: Option<&InsertBuffer>) -> Option<Seq<(LinkModel, ItemModel)>> {
    match buf {
        Some(b) => Some(b@.entries),
        None => None,
    }
}

/// The view of an optional projection.
pub open spec fn opt_proj(p: Option<&ProjectQuery>) -> Option<Seq<(ItemModel, ItemModel)>> {
    match p {
        Some(q) => Some(q@),
        None => None,
    }
}

/// The model of an optional navigation result.
pub open spec fn opt_sub_model(o: Option<FoundSubItem>) -> Option<FoundSubModel> {
    match o {
        Some(fs) => Some(fs@),
        None => None,
    }
}

/// Dereference-or-project: with rules present, only the requested keys are
/// resolved; otherwise the value is fully dereferenced.
pub open spec fn fetch_or_project_spec(
    colls: Seq<CollectionModel>,
    buf: Seq<(LinkModel, ItemModel)>,
    proj: Option<Seq<(ItemModel, ItemModel)>>,
    value: ItemModel,
    link: LinkModel,
    counter: u64,
) -> Result<ItemModel, DBError> {
    match proj {
        Some(pvals) => match make_rules_spec(pvals, 0) {
            Err(e) => Err(e),
            Ok(rules) => resolve_spec(colls, buf, rules, link, counter),
        },
        None => fetch_spec(colls, buf, value, counter),
    }
}

/// Dereference starting from a link, through the projection when one is
/// recorded: the buffer shadows committed data, an unknown link reads as
/// `Null`, a missing collection is an internal error.
pub open spec fn get_item_by_link_spec(
    colls: Seq<CollectionModel>,
    buf: Seq<(LinkModel, ItemModel)>,
    l: LinkModel,
    counter: u64,
    proj: Option<Seq<(ItemModel, ItemModel)>>,
) -> Result<ItemModel, DBError> {
    match link_lookup(colls, buf, l) {
        LinkLookup::Hit(v) => fetch_or_project_spec(colls, buf, proj, v, l, counter),
        LinkLookup::Absent => Ok(ItemModel::Null),
        LinkLookup::NoCollection => Err(DBError::InternalConsistency),
    }
}

/// A navigation result that can serve writes: the immediate container's link
/// and current value, the traversed segment, and the value found there.
#[derive(Debug)]
pub struct FoundSubItem {
    pub container_id: Link,
    pub container_value: Item,
    pub key: PathSeg,
    pub value: Option<Item>,
}

impl View for FoundSubItem {
    type V = FoundSubModel;

    open spec fn view(&self) -> FoundSubModel {
        FoundSubModel {
            container_id: self.container_id@,
            container_value: self.container_value@,
            key: self.key@,
            value: match self.value {
                Some(v) => Some(v@),
                None => None,
            },
        }
    }
}

impl FoundSubItem {
    /// The found value when it is a primitive, and nothing otherwise.
    pub fn get_primitive_or_none(&self) -> (r: Option<Primitive>)
        ensures
            match r {
                Some(p) => self@.value == Some(p@) && !(p@ is Array) && !(p@ is Table),
                None => match self@.value {
                    Some(v) => v is Array || v is Table,
                    None => true,
                },
            },
    {
        match &self.value {
            Some(Item::Primitive(pr)) => Some(pr.dup()),
            _ => None,
        }
    }
}

/// A navigation result addressing a whole stored item.
#[derive(Debug)]
pub struct FoundRootItem {
    pub id: Link,
    pub value: Item,
}

/// Either kind of navigation result.
#[derive(Debug)]
pub enum FoundItem {
    FoundSubItem(FoundSubItem),
    FoundRootItem(FoundRootItem),
}

impl FoundItem {
    /// The value the navigation reached, if any.
    pub fn get_value(&self) -> (r: Option<Item>)
        ensures
            match self {
                FoundItem::FoundRootItem(o) => r is Some && r->0@ == o.value@,
                FoundItem::FoundSubItem(o) => match o.value {
                    Some(v) => r is Some && r->0@ == v@,
                    None => r is None,
                },
            },
    {
        match self {
            FoundItem::FoundRootItem(o) => Some(o.value.dup()),
            FoundItem::FoundSubItem(o) => match &o.value {
                Some(v) => Some(v.dup()),
                None => None,
            },
        }
    }
}

/// Index of the collection named `name` in `wh`, as `coll_index_of` finds it.
#[verifier::loop_isolation(false)]
pub fn coll_find(wh: &Vec<Collection>, name: &String) -> (r: Option<usize>)
    ensures
        match r {
            Some(i) => i < wh@.len() && coll_index_of(colls_model(wh@), name@) == i as int,
            None => coll_index_of(colls_model(wh@), name@) == -1,
        },
{
    let ghost s = colls_model(wh@);
    let mut i: usize = 0;
    while i < wh.len()
        invariant
            0 <= i <= wh@.len(),
            forall|j: int| 0 <= j < i ==> (#[trigger] wh@[j])@.name != name@,
        decreases wh@.len() - i,
    {
        if wh[i].name == *name {
            proof {
                crate::model::lemma_coll_index_unique(s, name@, i as int);
            }
            return Some(i);
        }
        i += 1;
    }
    proof {
        crate::model::lemma_coll_index_of(s, name@);
    }
    None
}

/// The warehouse: the full set of open collections, plus the next fresh link
/// identifier handed to transactions.
#[derive(Debug)]
pub struct Storage {
    pub warehouse: Vec<Collection>,
    pub next_id: u64,
}

impl View for Storage {
    type V = StoreModel;

    open spec fn view(&self) -> StoreModel {
        StoreModel { collections: colls_model(self.warehouse@), next_id: self.next_id }
    }
}

impl Storage {
    /// An empty warehouse holding only the reserved internal collection.
    pub fn new() -> (r: Storage)
        ensures
            r@.collections == seq![
                (CollectionModel {
                    name: internal_name(),
                    log: Seq::empty(),
                    rows: Seq::empty(),
                }),
            ],
            r@.next_id == 0,
    {
        let mut warehouse: Vec<Collection> = Vec::new();
        warehouse.push(Collection::new("internal".to_string()));
        let r = Storage { warehouse, next_id: 0 };
        proof {
            assert(r@.collections =~= seq![
                (CollectionModel {
                    name: internal_name(),
                    log: Seq::empty(),
                    rows: Seq::empty(),
                }),
            ]);
        }
        r
    }


    /// Rebuild the in-memory state from the persisted backing files: every
    /// file's records are replayed in commit order, reconstructing the row
    /// maps (latest record per link) and the back-track indexes, and fresh
    /// link identifiers start above every replayed one.  Turning the files'
    /// text into records is the external deserializer's affair.
    #[verifier::loop_isolation(false)]
    pub fn restore(files: Vec<(String, Vec<(Link, Item)>)>) -> (r: Result<Storage, DBError>)
        ensures
            ({
                let fm = files_model(files@);
                let colls0 = seq![
                    (CollectionModel {
                        name: internal_name(),
                        log: Seq::empty(),
                        rows: Seq::empty(),
                    }),
                ];
                match restore_fold(colls0, fm, 0) {
                    Err(e) => r == Err::<Storage, DBError>(e),
                    Ok(c2) => match files_floor(fm, 0, 0) {
                        Err(e) => r == Err::<Storage, DBError>(e),
                        Ok(n) => r is Ok && r->Ok_0@.collections == c2 && r->Ok_0@.next_id == n,
                    },
                }
            }),
    {
        let ghost fm = files_model(files@);
        let mut storage = Storage::new();
        let ghost colls0 = storage@.collections;
        let mut i: usize = 0;
        while i < files.len()
            invariant
                0 <= i <= files@.len(),
                fm == files_model(files@),
                colls0 == seq![
                    (CollectionModel {
                        name: internal_name(),
                        log: Seq::empty(),
                        rows: Seq::empty(),
                    }),
                ],
                storage.next_id == 0,
                match restore_fold(colls_model(storage.warehouse@), fm, i as int) {
                    Ok(c2) => restore_fold(colls0, fm, 0) == Ok::<Seq<CollectionModel>, DBError>(
                        c2,
                    ),
                    Err(e) => restore_fold(colls0, fm, 0) == Err::<Seq<CollectionModel>, DBError>(
                        e,
                    ),
                },
            decreases files@.len() - i,
        {
            let ghost before = colls_model(storage.warehouse@);
            let file = &files[i];
            match coll_find(&storage.warehouse, &file.0) {
                Some(_) => {},
                None => {
                    storage.warehouse.push(Collection::new(file.0.clone()));
                },
            }
            proof {
                assert(colls_model(storage.warehouse@) =~= crate::semantics::ensure_coll(
                    before,
                    fm[i as int].0,
                ));
            }
            let ghost opened = colls_model(storage.warehouse@);
            let mut k: usize = 0;
            while k < file.1.len()
                invariant
                    0 <= k <= file.1@.len(),
                    0 <= i < files@.len(),
                    fm == files_model(files@),
                    fm[i as int].1 == crate::views::link_entries_model(file.1@),
                    match crate::semantics::commit_entries(
                        colls_model(storage.warehouse@),
                        fm[i as int].1,
                        k as int,
                    ) {
                        Ok(c2) => crate::semantics::commit_entries(opened, fm[i as int].1, 0)
                            == Ok::<Seq<CollectionModel>, DBError>(c2),
                        Err(e) => crate::semantics::commit_entries(opened, fm[i as int].1, 0)
                            == Err::<Seq<CollectionModel>, DBError>(e),
                    },
                    storage.next_id == 0,
                decreases file.1@.len() - k,
            {
                let record = &file.1[k];
                proof {
                    assert(fm[i as int].1[k as int] == (record.0@, record.1@));
                }
                match commit_entry(&mut storage.warehouse, &record.0, &record.1) {
                    Ok(()) => {},
                    Err(e) => {
                        return Err(e);
                    },
                }
                k += 1;
            }
            i += 1;
        }
        let mut floor: u64 = 0;
        let mut a: usize = 0;
        while a < files.len()
            invariant
                0 <= a <= files@.len(),
                fm == files_model(files@),
                restore_fold(colls0, fm, 0) == Ok::<Seq<CollectionModel>, DBError>(
                    colls_model(storage.warehouse@),
                ),
                storage.next_id == 0,
                match files_floor(fm, a as int, floor) {
                    Ok(n) => files_floor(fm, 0, 0) == Ok::<u64, DBError>(n),
                    Err(e) => files_floor(fm, 0, 0) == Err::<u64, DBError>(e),
                },
            decreases files@.len() - a,
        {
            let file = &files[a];
            let mut b: usize = 0;
            while b < file.1.len()
                invariant
                    0 <= b <= file.1@.len(),
                    0 <= a < files@.len(),
                    fm == files_model(files@),
                    fm[a as int].1 == crate::views::link_entries_model(file.1@),
                    restore_fold(colls0, fm, 0) == Ok::<Seq<CollectionModel>, DBError>(
                        colls_model(storage.warehouse@),
                    ),
                    storage.next_id == 0,
                    match records_floor(fm[a as int].1, b as int, floor) {
                        Ok(n) => files_floor(fm, 0, 0) == files_floor(fm, a + 1, n),
                        Err(e) => files_floor(fm, 0, 0) == Err::<u64, DBError>(e),
                    },
                decreases file.1@.len() - b,
            {
                let record = &file.1[b];
                proof {
                    assert(fm[a as int].1[b as int] == (record.0@, record.1@));
                }
                let id = record.0.id;
                if id == u64::MAX {
                    return Err(DBError::InternalConsistency);
                }
                if id + 1 > floor {
                    floor = id + 1;
                }
                b += 1;
            }
            a += 1;
        }
        storage.next_id = floor;
        Ok(storage)
    }

    /// The open collection of that name, if any.
    pub fn get_collection(&self, collection_name: String) -> (r: Option<&Collection>)
        ensures
            match r {
                Some(c) => colls_get(self@.collections, collection_name@) == Some(c@),
                None => colls_get(self@.collections, collection_name@) is None,
            },
    {
        match coll_find(&self.warehouse, &collection_name) {
            Some(i) => Some(&self.warehouse[i]),
            None => None,
        }
    }

    /// The value of `id`: the buffer (when given) shadows committed data; a
    /// link absent from both is an unresolved reference.
    pub fn get_value_by_link(&self, id: &Link, insert_buf: Option<&InsertBuffer>) -> (r: Result<
        Item,
        DBError,
    >)
        ensures
            match value_lookup(self@.collections, opt_entries(insert_buf), id@) {
                Ok(v) => r is Ok && r->Ok_0@ == v,
                Err(e) => r == Err::<Item, DBError>(e),
            },
    {
        if let Some(buf) = insert_buf {
            let staged = buf.get(id);
            if let Some(v) = staged {
                return Ok(v.dup());
            }
        }
        match self.get_collection(id.get_prefix().clone()) {
            Some(collection) => collection.get_value(id),
            None => Err(DBError::UnresolvedReference),
        }
    }

    /// Follow plain link-to-link indirection to the first non-link value,
    /// charging one unit of the depth budget per hop.
    pub fn get_value_by_link_skipping_links(
        &self,
        id: &Link,
        insert_buf: Option<&InsertBuffer>,
        depth: u64,
    ) -> (r: Result<(Link, Item), DBError>)
        ensures
            match skip_links_spec(self@.collections, opt_entries(insert_buf), id@, depth) {
                Ok(hit) => r is Ok && r->Ok_0.0@ == hit.0 && r->Ok_0.1@ == hit.1,
                Err(e) => r == Err::<(Link, Item), DBError>(e),
            },
        decreases fetch_fuel(depth),
    {
        if depth >= FETCH_DEPTH_LIMIT {
            return Err(DBError::RecursionLimit);
        }
        let value = self.get_value_by_link(id, insert_buf)?;
        match value {
            Item::Primitive(Primitive::Link(next)) => self.get_value_by_link_skipping_links(
                &next,
                insert_buf,
                depth + 1,
            ),
            _ => Ok((id.clone(), value)),
        }
    }

    /// Fully dereference `item`: links resolved recursively (the buffer
    /// shadowing committed data, an unknown link read as `Null`), containers
    /// rebuilt element by element, scalars and tombstones returned unchanged.
    /// The counter grows on every hop and container descent; exceeding the
    /// bound is a recursion-limit error.
    #[verifier::loop_isolation(false)]
    pub fn fetch(&self, item: &Item, insert_buf: &InsertBuffer, counter: u64) -> (r: Result<
        Item,
        DBError,
    >)
        ensures
            match fetch_spec(self@.collections, insert_buf@.entries, item@, counter) {
                Ok(v) => r is Ok && r->Ok_0@ == v,
                Err(e) => r == Err::<Item, DBError>(e),
            },
        decreases fetch_fuel(counter), 0nat,
    {
        let ghost colls = self@.collections;
        let ghost entries = insert_buf@.entries;
        if counter >= FETCH_DEPTH_LIMIT {
            return Err(DBError::RecursionLimit);
        }
        let c = counter + 1;
        match item {
            Item::Primitive(Primitive::Link(o)) => self.get_item_by_link(o, insert_buf, c, None),
            Item::Primitive(p) => Ok(Item::Primitive(p.dup())),
            Item::Vector(v) => {
                let ghost elems = elems_model(v@);
                let mut out: Vec<Item> = Vec::new();
                let mut i: usize = 0;
                while i < v.len()
                    invariant
                        0 <= i <= v@.len(),
                        match fetch_elems_spec(colls, entries, elems, c, i as int) {
                            Ok(rest) => fetch_elems_spec(colls, entries, elems, c, 0) == Ok::<
                                Seq<ItemModel>,
                                DBError,
                            >(elems_model(out@) + rest),
                            Err(e) => fetch_elems_spec(colls, entries, elems, c, 0) == Err::<
                                Seq<ItemModel>,
                                DBError,
                            >(e),
                        },
                    decreases v@.len() - i,
                {
                    proof {
                        assert(decreases_to!(*item => *v));
                        assert(decreases_to!(*v => v[i as int]));
                    }
                    let ghost prev = elems_model(out@);
                    match self.fetch(&v[i], insert_buf, c) {
                        Ok(fetched) => {
                            let ghost fv = fetched@;
                            out.push(fetched);
                            proof {
                                assert(elems_model(out@) =~= prev.push(fv));
                                if fetch_elems_spec(colls, entries, elems, c, i + 1) is Ok {
                                    let rest2 = fetch_elems_spec(colls, entries, elems, c, i + 1)->Ok_0;
                                    assert(prev + (seq![fv] + rest2) =~= elems_model(out@) + rest2);
                                }
                            }
                        },
                        Err(e) => {
                            return Err(e);
                        },
                    }
                    i += 1;
                }
                proof {
                    assert(elems_model(out@) + Seq::<ItemModel>::empty() =~= elems_model(out@));
                }
                Ok(Item::Vector(out))
            },
            Item::Mapping(m) => {
                let ghost es = entries_model(m@);
                let mut out: Vec<(String, Item)> = Vec::new();
                let mut i: usize = 0;
                while i < m.len()
                    invariant
                        0 <= i <= m@.len(),
                        match fetch_entries_spec(colls, entries, es, c, i as int) {
                            Ok(rest) => fetch_entries_spec(colls, entries, es, c, 0) == Ok::<
                                Seq<(Seq<char>, ItemModel)>,
                                DBError,
                            >(entries_model(out@) + rest),
                            Err(e) => fetch_entries_spec(colls, entries, es, c, 0) == Err::<
                                Seq<(Seq<char>, ItemModel)>,
                                DBError,
                            >(e),
                        },
                    decreases m@.len() - i,
                {
                    proof {
                        assert(decreases_to!(*item => *m));
                        assert(decreases_to!(*m => m[i as int]));
                        assert(decreases_to!(m[i as int] => m[i as int].1));
                    }
                    let ghost prev = entries_model(out@);
                    let entry = &m[i];
                    match self.fetch(&entry.1, insert_buf, c) {
                        Ok(fetched) => {
                            let ghost fv = fetched@;
                            let ghost kk = entry.0@;
                            out.push((entry.0.clone(), fetched));
                            proof {
                                assert(entries_model(out@) =~= prev.push((kk, fv)));
                                if fetch_entries_spec(colls, entries, es, c, i + 1) is Ok {
                                    let rest2 = fetch_entries_spec(colls, entries, es, c, i + 1)->Ok_0;
                                    assert(prev + (seq![(kk, fv)] + rest2) =~= entries_model(out@)
                                        + rest2);
                                }
                            }
                        },
                        Err(e) => {
                            return Err(e);
                        },
                    }
                    i += 1;
                }
                proof {
                    assert(entries_model(out@) + Seq::<(Seq<char>, ItemModel)>::empty()
                        =~= entries_model(out@));
                }
                Ok(Item::Mapping(out))
            },
        }
    }

    /// Dereference starting from a link, through the recorded projection when
    /// one is given.  The buffer shadows committed data; an unknown link reads
    /// as `Null`; a missing collection is an internal error.
    pub fn get_item_by_link(
        &self,
        id: &Link,
        insert_buf: &InsertBuffer,
        counter: u64,
        projection_rules: Option<&ProjectQuery>,
    ) -> (r: Result<Item, DBError>)
        ensures
            match get_item_by_link_spec(
                self@.collections,
                insert_buf@.entries,
                id@,
                counter,
                opt_proj(projection_rules),
            ) {
                Ok(v) => r is Ok && r->Ok_0@ == v,
                Err(e) => r == Err::<Item, DBError>(e),
            },
        decreases fetch_fuel(counter), 3nat,
    {
        let staged = insert_buf.get(id);
        match staged {
            Some(v) => {
                let value = v.dup();
                self.fetch_or_project(&value, id, insert_buf, projection_rules, counter)
            },
            None => {
                match self.get_collection(id.get_prefix().clone()) {
                    Some(collection) => {
                        match collection.row_get(id) {
                            Some(data) => {
                                let value = data.item.dup();
                                self.fetch_or_project(
                                    &value,
                                    id,
                                    insert_buf,
                                    projection_rules,
                                    counter,
                                )
                            },
                            None => Ok(Item::Primitive(Primitive::NullPrimitive)),
                        }
                    },
                    None => Err(DBError::InternalConsistency),
                }
            },
        }
    }

    /// Apply the recorded projection to the item under `link`, or fully
    /// dereference `value` when no projection is recorded.
    pub fn fetch_or_project(
        &self,
        value: &Item,
        link: &Link,
        insert_buf: &InsertBuffer,
        projection_rules: Option<&ProjectQuery>,
        counter: u64,
    ) -> (r: Result<Item, DBError>)
        ensures
            match fetch_or_project_spec(
                self@.collections,
                insert_buf@.entries,
                opt_proj(projection_rules),
                value@,
                link@,
                counter,
            ) {
                Ok(v) => r is Ok && r->Ok_0@ == v,
                Err(e) => r == Err::<Item, DBError>(e),
            },
        decreases fetch_fuel(counter), 2nat,
    {
        match projection_rules {
            Some(p) => {
                match p.make_rules() {
                    Ok(rules) => self.resolve(&rules, link, insert_buf, counter),
                    Err(e) => Err(e),
                }
            },
            None => self.fetch(value, insert_buf, counter),
        }
    }

    /// Projection-limited resolution: only the requested keys of the item
    /// under `link` are resolved, into a new mapping; a missing key or a
    /// non-mapping root reads as `Null`.
    #[verifier::loop_isolation(false)]
    pub fn resolve(
        &self,
        rules: &ProjectionRules,
        link: &Link,
        insert_buf: &InsertBuffer,
        counter: u64,
    ) -> (r: Result<Item, DBError>)
        ensures
            match resolve_spec(self@.collections, insert_buf@.entries, rules@, link@, counter) {
                Ok(v) => r is Ok && r->Ok_0@ == v,
                Err(e) => r == Err::<Item, DBError>(e),
            },
        decreases fetch_fuel(counter), 1nat,
    {
        let ghost colls = self@.collections;
        let ghost entries = insert_buf@.entries;
        let root_hit = self.get_value_by_link_skipping_links(link, Some(insert_buf), 0)?;
        let root = root_hit.1;
        let ghost rl = rules@;
        let mut out: Vec<(String, Item)> = Vec::new();
        let mut i: usize = 0;
        while i < rules.rules.len()
            invariant
                0 <= i <= rules.rules@.len(),
                match resolve_keys_spec(colls, entries, root@, rl, counter, i as int) {
                    Ok(rest) => resolve_keys_spec(colls, entries, root@, rl, counter, 0) == Ok::<
                        Seq<(Seq<char>, ItemModel)>,
                        DBError,
                    >(entries_model(out@) + rest),
                    Err(e) => resolve_keys_spec(colls, entries, root@, rl, counter, 0) == Err::<
                        Seq<(Seq<char>, ItemModel)>,
                        DBError,
                    >(e),
                },
            decreases rules.rules@.len() - i,
        {
            let rule = &rules.rules[i];
            let ghost prev = entries_model(out@);
            let ghost kk = rule.key@;
            let resolved: Item = match &root {
                Item::Mapping(es) => {
                    match table_lookup(es, &rule.key) {
                        Some(stored) => {
                            match stored {
                                Item::Primitive(Primitive::Link(l)) => {
                                    let li = Item::Primitive(Primitive::Link(l.clone()));
                                    match self.fetch(&li, insert_buf, counter) {
                                        Ok(v) => v,
                                        Err(e) => {
                                            return Err(e);
                                        },
                                    }
                                },
                                _ => {
                                    return Err(DBError::InternalConsistency);
                                },
                            }
                        },
                        None => Item::Primitive(Primitive::NullPrimitive),
                    }
                },
                _ => Item::Primitive(Primitive::NullPrimitive),
            };
            let ghost rv = resolved@;
            out.push((rule.key.clone(), resolved));
            proof {
                assert(entries_model(out@) =~= prev.push((kk, rv)));
                if resolve_keys_spec(colls, entries, root@, rl, counter, i + 1) is Ok {
                    let rest2 = resolve_keys_spec(colls, entries, root@, rl, counter, i + 1)->Ok_0;
                    assert(prev + (seq![(kk, rv)] + rest2) =~= entries_model(out@) + rest2);
                }
            }
            i += 1;
        }
        proof {
            assert(entries_model(out@) + Seq::<(Seq<char>, ItemModel)>::empty() =~= entries_model(
                out@,
            ));
        }
        Ok(Item::Mapping(out))
    }

    /// Insert `item` into `collection_name`: recursively decompose it, staging
    /// every sub-value under a fresh link of the internal collection and the
    /// root under a fresh link of the target collection, and return a link
    /// primitive naming the staged root.  After insertion every staged
    /// container holds only links.
    pub fn insert_item(
        &self,
        collection_name: String,
        buf: &mut InsertBuffer,
        item: Item,
    ) -> (r: Result<Item, DBError>)
        ensures
            match stage_spec(old(buf)@, collection_name@, item@) {
                Ok((b2, li)) => r is Ok && final(buf)@ == b2 && r->Ok_0@ == li,
                Err(e) => r == Err::<Item, DBError>(e),
            },
            final(buf)@.dropped == old(buf)@.dropped,
            (item@ is Deleted || old(buf)@.next_id == u64::MAX) ==> final(buf)@ == old(buf)@,
            crate::laws::buf_bounded(old(buf)@) && r is Ok ==> crate::laws::buf_bounded(
                final(buf)@,
            ) && crate::laws::entries_extend(old(buf)@.entries, final(buf)@.entries),
    {
        let ghost name = collection_name@;
        let r = self.insert_item_at(collection_name, buf, &item);
        proof {
            if crate::laws::buf_bounded(old(buf)@) {
                crate::laws::lemma_stage_extends(old(buf)@, name, item@);
            }
        }
        r
    }

    /// `insert_item` on a borrowed value.
    fn insert_item_at(&self, collection_name: String, buf: &mut InsertBuffer, item: &Item) -> (r:
        Result<Item, DBError>)
        ensures
            match stage_spec(old(buf)@, collection_name@, item@) {
                Ok((b2, li)) => r is Ok && final(buf)@ == b2 && r->Ok_0@ == li,
                Err(e) => r == Err::<Item, DBError>(e),
            },
            final(buf)@.dropped == old(buf)@.dropped,
            (item@ is Deleted || old(buf)@.next_id == u64::MAX) ==> final(buf)@ == old(buf)@,
        decreases *item, 1nat,
    {
        if let Item::Primitive(Primitive::DeletedPrimitive) = item {
            return Err(DBError::MalformedQuery);
        }
        let link = match buf.mint(collection_name) {
            Ok(l) => l,
            Err(e) => {
                proof {
                    assert(buf@ =~= old(buf)@);
                }
                return Err(e);
            },
        };
        let result_link = link.clone();
        match self.stage_item_at(link, item, buf) {
            Ok(()) => Ok(Item::Primitive(Primitive::Link(result_link))),
            Err(e) => Err(e),
        }
    }

    /// Stage `item` under the existing `link`: scalars and links as they are;
    /// a container is decomposed by staging each element under the internal
    /// collection and assembling a container of the resulting links.
    #[verifier::loop_isolation(false)]
    fn stage_item_at(&self, link: Link, item: &Item, buf: &mut InsertBuffer) -> (r: Result<
        (),
        DBError,
    >)
        ensures
            match stage_at_spec(old(buf)@, link@, item@) {
                Ok(b2) => r is Ok && final(buf)@ == b2,
                Err(e) => r == Err::<(), DBError>(e),
            },
            final(buf)@.dropped == old(buf)@.dropped,
        decreases *item, 0nat,
    {
        let ghost buf0 = buf@;
        match item {
            Item::Primitive(p) => {
                buf.insert(link, Item::Primitive(p.dup()));
                proof {
                    assert(buf@ =~= crate::semantics::buf_put(buf0, link@, item@));
                }
                Ok(())
            },
            Item::Vector(v) => {
                let ghost elems = elems_model(v@);
                let mut links: Vec<Item> = Vec::new();
                let mut i: usize = 0;
                while i < v.len()
                    invariant
                        0 <= i <= v@.len(),
                        buf@.dropped == buf0.dropped,
                        match stage_elems_spec(buf@, elems, i as int) {
                            Ok((bf, rest)) => stage_elems_spec(buf0, elems, 0) == Ok::<
                                (crate::model::BufferModel, Seq<ItemModel>),
                                DBError,
                            >((bf, elems_model(links@) + rest)),
                            Err(e) => stage_elems_spec(buf0, elems, 0) == Err::<
                                (crate::model::BufferModel, Seq<ItemModel>),
                                DBError,
                            >(e),
                        },
                    decreases v@.len() - i,
                {
                    proof {
                        assert(decreases_to!(*item => *v));
                        assert(decreases_to!(*v => v[i as int]));
                    }
                    let ghost prev = elems_model(links@);
                    match self.insert_item_at("internal".to_string(), buf, &v[i]) {
                        Ok(li) => {
                            let ghost lv = li@;
                            links.push(li);
                            proof {
                                assert(elems_model(links@) =~= prev.push(lv));
                                if stage_elems_spec(buf@, elems, i + 1) is Ok {
                                    let rest2 = stage_elems_spec(buf@, elems, i + 1)->Ok_0.1;
                                    assert(prev + (seq![lv] + rest2) =~= elems_model(links@)
                                        + rest2);
                                }
                            }
                        },
                        Err(e) => {
                            return Err(e);
                        },
                    }
                    i += 1;
                }
                let ghost before_put = buf@;
                buf.insert(link, Item::Vector(links));
                proof {
                    assert(elems_model(links@) + Seq::<ItemModel>::empty() =~= elems_model(
                        links@,
                    ));
                    assert(buf@ =~= crate::semantics::buf_put(
                        before_put,
                        link@,
                        ItemModel::Array(elems_model(links@)),
                    ));
                }
                Ok(())
            },
            Item::Mapping(m) => {
                let ghost es = entries_model(m@);
                let mut links: Vec<(String, Item)> = Vec::new();
                let mut i: usize = 0;
                while i < m.len()
                    invariant
                        0 <= i <= m@.len(),
                        buf@.dropped == buf0.dropped,
                        match stage_entries_spec(buf@, es, i as int) {
                            Ok((bf, rest)) => stage_entries_spec(buf0, es, 0) == Ok::<
                                (crate::model::BufferModel, Seq<(Seq<char>, ItemModel)>),
                                DBError,
                            >((bf, entries_model(links@) + rest)),
                            Err(e) => stage_entries_spec(buf0, es, 0) == Err::<
                                (crate::model::BufferModel, Seq<(Seq<char>, ItemModel)>),
                                DBError,
                            >(e),
                        },
                    decreases m@.len() - i,
                {
                    proof {
                        assert(decreases_to!(*item => *m));
                        assert(decreases_to!(*m => m[i as int]));
                        assert(decreases_to!(m[i as int] => m[i as int].1));
                    }
                    let ghost prev = entries_model(links@);
                    let entry = &m[i];
                    let ghost kk = entry.0@;
                    match self.insert_item_at("internal".to_string(), buf, &entry.1) {
                        Ok(li) => {
                            let ghost lv = li@;
                            links.push((entry.0.clone(), li));
                            proof {
                                assert(entries_model(links@) =~= prev.push((kk, lv)));
                                if stage_entries_spec(buf@, es, i + 1) is Ok {
                                    let rest2 = stage_entries_spec(buf@, es, i + 1)->Ok_0.1;
                                    assert(prev + (seq![(kk, lv)] + rest2) =~= entries_model(
                                        links@,
                                    ) + rest2);
                                }
                            }
                        },
                        Err(e) => {
                            return Err(e);
                        },
                    }
                    i += 1;
                }
                let ghost before_put = buf@;
                buf.insert(link, Item::Mapping(links));
                proof {
                    assert(entries_model(links@) + Seq::<(Seq<char>, ItemModel)>::empty()
                        =~= entries_model(links@));
                    assert(buf@ =~= crate::semantics::buf_put(
                        before_put,
                        link@,
                        ItemModel::Table(entries_model(links@)),
                    ));
                }
                Ok(())
            },
        }
    }

    /// Walk `path` from `item`, one segment at a time: at each mapping the
    /// segment is looked up as a key, at each vector as an index, and the
    /// stored link is followed through link chains to the next value.  A
    /// missing key or index yields `None`, as does reaching a non-container
    /// while segments remain.
    #[verifier::loop_isolation(false)]
    pub fn get_item_value_by_path(
        &self,
        path: PathToValue,
        item: &Item,
        insert_buf: Option<&InsertBuffer>,
    ) -> (r: Result<Option<Item>, DBError>)
        ensures
            match nav_spec(self@.collections, opt_entries(insert_buf), item@, path@, 0) {
                Ok(v) => r is Ok && match v {
                    Some(found) => r->Ok_0 is Some && r->Ok_0->0@ == found,
                    None => r->Ok_0 is None,
                },
                Err(e) => r == Err::<Option<Item>, DBError>(e),
            },
    {
        let ghost colls = self@.collections;
        let ghost buf = opt_entries(insert_buf);
        let ghost segs = path@;
        let mut value = item.dup();
        let mut i: usize = 0;
        while i < path.segments.len()
            invariant
                0 <= i <= path.segments@.len(),
                nav_spec(colls, buf, value@, segs, i as int) == nav_spec(colls, buf, item@, segs, 0),
            decreases path.segments@.len() - i,
        {
            let seg = &path.segments[i];
            proof {
                assert(seg@ == segs[i as int]);
            }
            match (&value, seg) {
                (Item::Mapping(es), PathSeg::Key(k)) => {
                    proof {
                        assert(value@ == ItemModel::Table(entries_model(es@)));
                        assert(segs[i as int] == PathSegModel::Key(k@));
                    }
                    match table_lookup(es, k) {
                        Some(stored) => {
                            match stored {
                                Item::Primitive(Primitive::Link(l)) => {
                                    let next_link = l.clone();
                                    proof {
                                        assert(crate::assoc::assoc_get(entries_model(es@), k@)
                                            == Some(ItemModel::LinkTo(next_link@)));
                                    }
                                    match self.get_value_by_link_skipping_links(
                                        &next_link,
                                        insert_buf,
                                        0,
                                    ) {
                                        Ok(hit) => {
                                            proof {
                                                assert(skip_links_spec(colls, buf, next_link@, 0)
                                                    == Ok::<(LinkModel, ItemModel), DBError>(
                                                    (hit.0@, hit.1@),
                                                ));
                                                assert(nav_spec(colls, buf, value@, segs, i as int)
                                                    == nav_spec(colls, buf, hit.1@, segs, i + 1));
                                            }
                                            value = hit.1;
                                        },
                                        Err(e) => {
                                            return Err(e);
                                        },
                                    }
                                },
                                _ => {
                                    return Err(DBError::InternalConsistency);
                                },
                            }
                        },
                        None => {
                            return Ok(None);
                        },
                    }
                },
                (Item::Vector(s), PathSeg::Index(ix)) => {
                    proof {
                        assert(value@ == ItemModel::Array(elems_model(s@)));
                        assert(segs[i as int] == PathSegModel::Index(*ix));
                    }
                    if *ix < s.len() {
                        match &s[*ix] {
                            Item::Primitive(Primitive::Link(l)) => {
                                let next_link = l.clone();
                                proof {
                                    assert(elems_model(s@)[*ix as int] == ItemModel::LinkTo(
                                        next_link@,
                                    ));
                                }
                                match self.get_value_by_link_skipping_links(
                                    &next_link,
                                    insert_buf,
                                    0,
                                ) {
                                    Ok(hit) => {
                                        proof {
                                            assert(nav_spec(colls, buf, value@, segs, i as int)
                                                == nav_spec(colls, buf, hit.1@, segs, i + 1));
                                        }
                                        value = hit.1;
                                    },
                                    Err(e) => {
                                        return Err(e);
                                    },
                                }
                            },
                            _ => {
                                proof {
                                    assert(elems_model(s@).len() == s@.len());
                                }
                                return Err(DBError::InternalConsistency);
                            },
                        }
                    } else {
                        proof {
                            assert(elems_model(s@).len() == s@.len());
                        }
                        return Ok(None);
                    }
                },
                _ => {
                    return Ok(None);
                },
            }
            i += 1;
        }
        Ok(Some(value))
    }

    /// Navigate `path` from the item stored under `id`, recording for each
    /// hop the immediate container's link and current value and the traversed
    /// segment, so that one navigation can serve both reads and writes.
    #[verifier::loop_isolation(false)]
    pub fn find_sub_item_by_path(
        &self,
        path: PathToValue,
        id: Link,
        insert_buf: &InsertBuffer,
    ) -> (r: Result<Option<FoundSubItem>, DBError>)
        ensures
            match find_sub_spec(self@.collections, insert_buf@.entries, id@, path@) {
                Ok(v) => r is Ok && match v {
                    Some(fs) => r->Ok_0 is Some && r->Ok_0->0@ == fs,
                    None => r->Ok_0 is None,
                },
                Err(e) => r == Err::<Option<FoundSubItem>, DBError>(e),
            },
    {
        let ghost colls = self@.collections;
        let ghost entries = insert_buf@.entries;
        let ghost segs = path@;
        let mut item = match self.get_value_by_link(&id, Some(insert_buf)) {
            Ok(v) => v,
            Err(e) => {
                return Err(e);
            },
        };
        let mut last_link = id;
        let mut sub_item: Option<FoundSubItem> = None;
        let ghost total = find_sub_spec(colls, entries, id@, segs);
        let mut i: usize = 0;
        while i < path.segments.len()
            invariant
                0 <= i <= path.segments@.len(),
                find_sub_walk_spec(
                    colls,
                    entries,
                    item@,
                    last_link@,
                    opt_sub_model(sub_item),
                    segs,
                    i as int,
                ) == total,
            decreases path.segments@.len() - i,
        {
            let seg = &path.segments[i];
            let ghost prev_item = item@;
            let ghost prev_last = last_link@;
            let ghost prev_sub = opt_sub_model(sub_item);
            proof {
                assert(seg@ == segs[i as int]);
            }
            match (&item, seg) {
                (Item::Mapping(es), PathSeg::Key(k)) => {
                    proof {
                        assert(item@ == ItemModel::Table(entries_model(es@)));
                        assert(segs[i as int] == PathSegModel::Key(k@));
                    }
                    match table_lookup(es, k) {
                        Some(stored) => {
                            match stored {
                                Item::Primitive(Primitive::Link(l)) => {
                                    let next_link = l.clone();
                                    proof {
                                        assert(crate::assoc::assoc_get(entries_model(es@), k@)
                                            == Some(ItemModel::LinkTo(next_link@)));
                                    }
                                    match self.get_value_by_link_skipping_links(
                                        &next_link,
                                        Some(insert_buf),
                                        0,
                                    ) {
                                        Ok(hit) => {
                                            sub_item = Some(
                                                FoundSubItem {
                                                    container_id: last_link,
                                                    container_value: item,
                                                    key: seg.clone(),
                                                    value: Some(hit.1.dup()),
                                                },
                                            );
                                            last_link = hit.0;
                                            item = hit.1;
                                            proof {
                                                assert(find_sub_walk_spec(
                                                    colls,
                                                    entries,
                                                    prev_item,
                                                    prev_last,
                                                    prev_sub,
                                                    segs,
                                                    i as int,
                                                ) == find_sub_walk_spec(
                                                    colls,
                                                    entries,
                                                    item@,
                                                    last_link@,
                                                    opt_sub_model(sub_item),
                                                    segs,
                                                    i + 1,
                                                ));
                                            }
                                        },
                                        Err(e) => {
                                            return Err(e);
                                        },
                                    }
                                },
                                _ => {
                                    return Err(DBError::InternalConsistency);
                                },
                            }
                        },
                        None => {
                            sub_item = Some(
                                FoundSubItem {
                                    container_id: last_link.clone(),
                                    container_value: item,
                                    key: seg.clone(),
                                    value: None,
                                },
                            );
                            item = Item::Primitive(Primitive::NullPrimitive);
                            proof {
                                assert(find_sub_walk_spec(
                                    colls,
                                    entries,
                                    prev_item,
                                    prev_last,
                                    prev_sub,
                                    segs,
                                    i as int,
                                ) == find_sub_walk_spec(
                                    colls,
                                    entries,
                                    item@,
                                    last_link@,
                                    opt_sub_model(sub_item),
                                    segs,
                                    i + 1,
                                ));
                            }
                        },
                    }
                },
                (Item::Vector(s), PathSeg::Index(ix)) => {
                    proof {
                        assert(item@ == ItemModel::Array(elems_model(s@)));
                        assert(segs[i as int] == PathSegModel::Index(*ix));
                        assert(elems_model(s@).len() == s@.len());
                    }
                    if *ix < s.len() {
                        match &s[*ix] {
                            Item::Primitive(Primitive::Link(l)) => {
                                let next_link = l.clone();
                                proof {
                                    assert(elems_model(s@)[*ix as int] == ItemModel::LinkTo(
                                        next_link@,
                                    ));
                                }
                                match self.get_value_by_link(&next_link, Some(insert_buf)) {
                                    Ok(v) => {
                                        sub_item = Some(
                                            FoundSubItem {
                                                container_id: last_link,
                                                container_value: item,
                                                key: seg.clone(),
                                                value: Some(v.dup()),
                                            },
                                        );
                                        last_link = next_link;
                                        item = v;
                                        proof {
                                            assert(find_sub_walk_spec(
                                                colls,
                                                entries,
                                                prev_item,
                                                prev_last,
                                                prev_sub,
                                                segs,
                                                i as int,
                                            ) == find_sub_walk_spec(
                                                colls,
                                                entries,
                                                item@,
                                                last_link@,
                                                opt_sub_model(sub_item),
                                                segs,
                                                i + 1,
                                            ));
                                        }
                                    },
                                    Err(e) => {
                                        return Err(e);
                                    },
                                }
                            },
                            _ => {
                                return Err(DBError::InternalConsistency);
                            },
                        }
                    } else {
                        return Ok(None);
                    }
                },
                _ => {
                    return Ok(None);
                },
            }
            i += 1;
        }
        Ok(sub_item)
    }

    /// Insert every query item into `collection_name`, returning the link
    /// primitives naming the staged roots, in order.
    #[verifier::loop_isolation(false)]
    pub fn insert_many(
        &self,
        collection_name: &String,
        items: &Vec<Item>,
        buf: &mut InsertBuffer,
    ) -> (r: Result<Vec<Item>, DBError>)
        ensures
            match insert_many_spec(old(buf)@, collection_name@, elems_model(items@), 0) {
                Ok((b2, links)) => r is Ok && final(buf)@ == b2 && elems_model(r->Ok_0@) == links,
                Err(e) => r == Err::<Vec<Item>, DBError>(e),
            },
            final(buf)@.dropped == old(buf)@.dropped,
    {
        let ghost name = collection_name@;
        let ghost its = elems_model(items@);
        let ghost buf0 = buf@;
        let mut links: Vec<Item> = Vec::new();
        let mut i: usize = 0;
        while i < items.len()
            invariant
                0 <= i <= items@.len(),
                buf@.dropped == buf0.dropped,
                match insert_many_spec(buf@, name, its, i as int) {
                    Ok((b2, rest)) => insert_many_spec(buf0, name, its, 0) == Ok::<
                        (crate::model::BufferModel, Seq<ItemModel>),
                        DBError,
                    >((b2, elems_model(links@) + rest)),
                    Err(e) => insert_many_spec(buf0, name, its, 0) == Err::<
                        (crate::model::BufferModel, Seq<ItemModel>),
                        DBError,
                    >(e),
                },
            decreases items@.len() - i,
        {
            let ghost prev = elems_model(links@);
            match self.insert_item_at(collection_name.clone(), buf, &items[i]) {
                Ok(li) => {
                    let ghost lv = li@;
                    links.push(li);
                    proof {
                        assert(elems_model(links@) =~= prev.push(lv));
                        if insert_many_spec(buf@, name, its, i + 1) is Ok {
                            let rest2 = insert_many_spec(buf@, name, its, i + 1)->Ok_0.1;
                            assert(prev + (seq![lv] + rest2) =~= elems_model(links@) + rest2);
                        }
                    }
                },
                Err(e) => {
                    return Err(e);
                },
            }
            i += 1;
        }
        proof {
            assert(elems_model(links@) + Seq::<ItemModel>::empty() =~= elems_model(links@));
        }
        Ok(links)
    }

    /// The value one key hop from `root`: the stored link under `key`,
    /// followed through link chains; any failure reads as no value.
    pub fn eval_cond_value(&self, root: &Item, key: &String, insert_buf: &InsertBuffer) -> (r:
        Option<Item>)
        ensures
            match cond_value(self@.collections, insert_buf@.entries, root@, key@) {
                Some(v) => r is Some && r->0@ == v,
                None => r is None,
            },
    {
        match root {
            Item::Mapping(es) => {
                match table_lookup(es, key) {
                    Some(stored) => {
                        match stored {
                            Item::Primitive(Primitive::Link(l)) => {
                                let next_link = l.clone();
                                match self.get_value_by_link_skipping_links(
                                    &next_link,
                                    Some(insert_buf),
                                    0,
                                ) {
                                    Ok(hit) => Some(hit.1),
                                    Err(_) => None,
                                }
                            },
                            _ => Some(stored.dup()),
                        }
                    },
                    None => None,
                }
            },
            _ => None,
        }
    }

    /// Whether the item stored under `id` satisfies every condition.
    #[verifier::loop_isolation(false)]
    pub fn matches_conditions(
        &self,
        id: &Link,
        query: &crate::query::FindQuery,
        insert_buf: &InsertBuffer,
    ) -> (r: bool)
        ensures
            r == matches_conds(self@.collections, insert_buf@.entries, query@, id@),
    {
        let ghost colls = self@.collections;
        let ghost entries = insert_buf@.entries;
        let root = match self.get_value_by_link(id, Some(insert_buf)) {
            Ok(v) => v,
            Err(_) => {
                return false;
            },
        };
        let mut i: usize = 0;
        while i < query.conditions.len()
            invariant
                0 <= i <= query.conditions@.len(),
                value_lookup(colls, Some(entries), id@) == Ok::<ItemModel, DBError>(root@),
                forall|j: int|
                    0 <= j < i ==> cond_value(colls, entries, root@, (#[trigger] query@[j]).0)
                        == Some(query@[j].1),
            decreases query.conditions@.len() - i,
        {
            let cond = &query.conditions[i];
            let want = Item::Primitive(cond.1.dup());
            proof {
                assert(query@[i as int] == (cond.0@, cond.1@));
            }
            match self.eval_cond_value(&root, &cond.0, insert_buf) {
                Some(v) => {
                    if !v.deep_eq(&want) {
                        proof {
                            assert(cond_value(colls, entries, root@, query@[i as int].0) != Some(
                                query@[i as int].1,
                            ));
                        }
                        return false;
                    }
                },
                None => {
                    proof {
                        assert(cond_value(colls, entries, root@, query@[i as int].0) != Some(
                            query@[i as int].1,
                        ));
                    }
                    return false;
                },
            }
            i += 1;
        }
        true
    }

    /// The committed links of the collection named `name`, in row order.
    #[verifier::loop_isolation(false)]
    pub fn collection_links(&self, name: &String) -> (r: Vec<Link>)
        ensures
            crate::views::links_model(r@) == match colls_get(self@.collections, name@) {
                Some(c) => rows_keys(c.rows),
                None => Seq::<LinkModel>::empty(),
            },
    {
        let mut out: Vec<Link> = Vec::new();
        match self.get_collection(name.clone()) {
            Some(collection) => {
                let mut i: usize = 0;
                while i < collection.values.len()
                    invariant
                        0 <= i <= collection.values@.len(),
                        out@.len() == i,
                        forall|j: int|
                            0 <= j < i ==> (#[trigger] out@[j])@ == collection.values@[j].0@,
                    decreases collection.values@.len() - i,
                {
                    out.push(collection.values[i].0.clone());
                    i += 1;
                }
                proof {
                    assert(crate::views::links_model(out@) =~= rows_keys(collection@.rows));
                }
            },
            None => {
                proof {
                    assert(crate::views::links_model(out@) =~= Seq::<LinkModel>::empty());
                }
            },
        }
        out
    }

    /// Run a find: candidates are the committed links of the target collection
    /// when the find opens the step, the current working set otherwise; the
    /// working set becomes the candidates that satisfy every condition.
    #[verifier::loop_isolation(false)]
    pub fn find(
        &self,
        collection_name: &String,
        query: &crate::query::FindQuery,
        filter_buf: &mut FilterBuffer,
        insert_buf: &InsertBuffer,
        is_first: bool,
    )
        ensures
            final(filter_buf)@ == find_result(
                self@.collections,
                insert_buf@.entries,
                collection_name@,
                query@,
                old(filter_buf)@,
                is_first,
            ),
    {
        let ghost colls = self@.collections;
        let ghost entries = insert_buf@.entries;
        let cands: Vec<Link> = if is_first {
            self.collection_links(collection_name)
        } else {
            let mut copied: Vec<Link> = Vec::new();
            let mut i: usize = 0;
            while i < filter_buf.ids.len()
                invariant
                    0 <= i <= filter_buf.ids@.len(),
                    copied@.len() == i,
                    forall|j: int|
                        0 <= j < i ==> (#[trigger] copied@[j])@ == filter_buf.ids@[j]@,
                decreases filter_buf.ids@.len() - i,
            {
                copied.push(filter_buf.ids[i].clone());
                i += 1;
            }
            proof {
                assert(crate::views::links_model(copied@) =~= old(filter_buf)@);
            }
            copied
        };
        let ghost cm = crate::views::links_model(cands@);
        filter_buf.ids = Vec::new();
        let mut i: usize = 0;
        while i < cands.len()
            invariant
                0 <= i <= cands@.len(),
                cm == crate::views::links_model(cands@),
                find_filter(colls, entries, query@, cm, 0) == filter_buf@ + find_filter(
                    colls,
                    entries,
                    query@,
                    cm,
                    i as int,
                ),
            decreases cands@.len() - i,
        {
            let ghost prev = filter_buf@;
            if self.matches_conditions(&cands[i], query, insert_buf) {
                filter_buf.push(cands[i].clone());
                proof {
                    assert(prev + (seq![cm[i as int]] + find_filter(
                        colls,
                        entries,
                        query@,
                        cm,
                        i + 1,
                    )) =~= filter_buf@ + find_filter(colls, entries, query@, cm, i + 1));
                }
            } else {
                proof {
                    assert(prev + (Seq::<LinkModel>::empty() + find_filter(
                        colls,
                        entries,
                        query@,
                        cm,
                        i + 1,
                    )) =~= filter_buf@ + find_filter(colls, entries, query@, cm, i + 1));
                }
            }
            i += 1;
        }
        proof {
            assert(filter_buf@ + Seq::<LinkModel>::empty() =~= filter_buf@);
        }
    }

    /// One set-operator write against the matched item `id`.
    pub fn apply_set(
        &self,
        id: &Link,
        target: &crate::query::SetTarget,
        value: &Item,
        insert_buf: &mut InsertBuffer,
    ) -> (r: Result<(), DBError>)
        ensures
            match crate::query::apply_set_spec(
                self@.collections,
                old(insert_buf)@,
                id@,
                target@,
                value@,
            ) {
                Ok(b2) => r is Ok && final(insert_buf)@ == b2,
                Err(e) => r == Err::<(), DBError>(e),
            },
            final(insert_buf)@.dropped == old(insert_buf)@.dropped,
    {
        match target {
            crate::query::SetTarget::RootTarget => self.stage_item_at(id.clone(), value, insert_buf),
            crate::query::SetTarget::PathTarget(p) => {
                let found = match self.find_sub_item_by_path(p.clone(), id.clone(), insert_buf) {
                    Ok(f) => f,
                    Err(e) => {
                        return Err(e);
                    },
                };
                match found {
                    None => Ok(()),
                    Some(fs) => {
                        let FoundSubItem { container_id, container_value, key, value: _ } = fs;
                        match container_value {
                            Item::Mapping(es) => {
                                match &key {
                                    PathSeg::Key(k) => {
                                        let li = match self.insert_item_at(
                                            "internal".to_string(),
                                            insert_buf,
                                            value,
                                        ) {
                                            Ok(li) => li,
                                            Err(e) => {
                                                return Err(e);
                                            },
                                        };
                                        let newmap = crate::item::table_put(&es, k, &li);
                                        insert_buf.insert(container_id, Item::Mapping(newmap));
                                        Ok(())
                                    },
                                    PathSeg::Index(_) => Ok(()),
                                }
                            },
                            Item::Vector(sv) => {
                                match &key {
                                    PathSeg::Index(ix) => {
                                        if *ix < sv.len() {
                                            let li = match self.insert_item_at(
                                                "internal".to_string(),
                                                insert_buf,
                                                value,
                                            ) {
                                                Ok(li) => li,
                                                Err(e) => {
                                                    return Err(e);
                                                },
                                            };
                                            let newvec = crate::item::vector_put(&sv, *ix, &li);
                                            insert_buf.insert(container_id, Item::Vector(newvec));
                                            Ok(())
                                        } else {
                                            proof {
                                                assert(elems_model(sv@).len() == sv@.len());
                                            }
                                            Ok(())
                                        }
                                    },
                                    PathSeg::Key(_) => Ok(()),
                                }
                            },
                            _ => Ok(()),
                        }
                    },
                }
            },
        }
    }

    /// Apply every set operator of `query` to every matched link, staging the
    /// rewrites in the insert buffer.
    #[verifier::loop_isolation(false)]
    pub fn apply_update(
        &self,
        query: &crate::query::UpdateQuery,
        insert_buf: &mut InsertBuffer,
        filter_buf: &FilterBuffer,
    ) -> (r: Result<(), DBError>)
        ensures
            match crate::query::update_ids_spec(
                self@.collections,
                old(insert_buf)@,
                filter_buf@,
                query@,
                0,
            ) {
                Ok(b2) => r is Ok && final(insert_buf)@ == b2,
                Err(e) => r == Err::<(), DBError>(e),
            },
            final(insert_buf)@.dropped == old(insert_buf)@.dropped,
    {
        let ghost colls = self@.collections;
        let ghost ids = filter_buf@;
        let ghost sets = query@;
        let ghost buf0 = insert_buf@;
        let mut i: usize = 0;
        while i < filter_buf.ids.len()
            invariant
                0 <= i <= filter_buf.ids@.len(),
                insert_buf@.dropped == buf0.dropped,
                crate::query::update_ids_spec(colls, buf0, ids, sets, 0)
                    == crate::query::update_ids_spec(colls, insert_buf@, ids, sets, i as int),
            decreases filter_buf.ids@.len() - i,
        {
            let id = &filter_buf.ids[i];
            let mut k: usize = 0;
            while k < query.operators.len()
                invariant
                    0 <= k <= query.operators@.len(),
                    0 <= i < filter_buf.ids@.len(),
                    insert_buf@.dropped == buf0.dropped,
                    id@ == ids[i as int],
                    crate::query::update_ids_spec(colls, buf0, ids, sets, 0) == match crate::query::update_operators_spec(
                        colls,
                        insert_buf@,
                        ids[i as int],
                        sets,
                        k as int,
                    ) {
                        Ok(b2) => crate::query::update_ids_spec(colls, b2, ids, sets, i + 1),
                        Err(e) => Err::<crate::model::BufferModel, DBError>(e),
                    },
                decreases query.operators@.len() - k,
            {
                let operator = &query.operators[k];
                let mut j: usize = 0;
                while j < operator.values.len()
                    invariant
                        0 <= j <= operator.values@.len(),
                        0 <= i < filter_buf.ids@.len(),
                        0 <= k < query.operators@.len(),
                        insert_buf@.dropped == buf0.dropped,
                        id@ == ids[i as int],
                        operator@ == sets[k as int],
                        crate::query::update_ids_spec(colls, buf0, ids, sets, 0) == match crate::query::update_ops_spec(
                            colls,
                            insert_buf@,
                            ids[i as int],
                            sets[k as int],
                            j as int,
                        ) {
                            Ok(b1) => match crate::query::update_operators_spec(
                                colls,
                                b1,
                                ids[i as int],
                                sets,
                                k + 1,
                            ) {
                                Ok(b2) => crate::query::update_ids_spec(colls, b2, ids, sets, i + 1),
                                Err(e) => Err::<crate::model::BufferModel, DBError>(e),
                            },
                            Err(e) => Err::<crate::model::BufferModel, DBError>(e),
                        },
                    decreases operator.values@.len() - j,
                {
                    let entry = &operator.values[j];
                    match self.apply_set(id, &entry.0, &entry.1, insert_buf) {
                        Ok(()) => {},
                        Err(e) => {
                            return Err(e);
                        },
                    }
                    j += 1;
                }
                k += 1;
            }
            i += 1;
        }
        Ok(())
    }

    /// Keep only the first so-many links of the working set.
    #[verifier::loop_isolation(false)]
    pub fn apply_limit(&self, query: &crate::query::LimitQuery, filter_buf: &mut FilterBuffer) -> (r:
        Result<(), DBError>)
        ensures
            match limit_spec(old(filter_buf)@, query@) {
                Ok(ids2) => r is Ok && final(filter_buf)@ == ids2,
                Err(e) => r == Err::<(), DBError>(e) && final(filter_buf)@ == old(filter_buf)@,
            },
    {
        let ghost ids0 = filter_buf@;
        match query.get_value() {
            Item::Primitive(Primitive::NumberPrimitive(n)) => {
                let k = *n;
                if k < 0 {
                    return Err(DBError::MalformedQuery);
                }
                if (k as u64) < (filter_buf.ids.len() as u64) {
                    let keep = k as usize;
                    filter_buf.ids.truncate(keep);
                    proof {
                        assert(filter_buf@ =~= ids0.take(k as int));
                    }
                }
                Ok(())
            },
            _ => Err(DBError::MalformedQuery),
        }
    }

    /// Drop the first so-many links of the working set.
    pub fn apply_offset(&self, query: &crate::query::OffsetQuery, filter_buf: &mut FilterBuffer) -> (r:
        Result<(), DBError>)
        ensures
            match offset_spec(old(filter_buf)@, query@) {
                Ok(ids2) => r is Ok && final(filter_buf)@ == ids2,
                Err(e) => r == Err::<(), DBError>(e) && final(filter_buf)@ == old(filter_buf)@,
            },
    {
        let ghost ids0 = filter_buf@;
        match query.get_value() {
            Item::Primitive(Primitive::NumberPrimitive(n)) => {
                let k = *n;
                if k < 0 {
                    return Err(DBError::MalformedQuery);
                }
                if (k as u64) < (filter_buf.ids.len() as u64) {
                    let at = k as usize;
                    let tail = filter_buf.ids.split_off(at);
                    filter_buf.ids = tail;
                    proof {
                        assert(filter_buf@ =~= ids0.skip(k as int));
                    }
                } else {
                    filter_buf.ids = Vec::new();
                    proof {
                        assert(filter_buf@ =~= Seq::<LinkModel>::empty());
                    }
                }
                Ok(())
            },
            _ => Err(DBError::MalformedQuery),
        }
    }

    /// The numeric sorting key of `id`, if it has one.
    pub fn eval_sort_key(&self, id: &Link, key: &String, insert_buf: &InsertBuffer) -> (r: Option<
        i64,
    >)
        ensures
            r == crate::semantics::sort_key_spec(self@.collections, insert_buf@.entries, id@, key@),
    {
        match self.get_value_by_link(id, Some(insert_buf)) {
            Err(_) => None,
            Ok(root) => {
                match self.eval_cond_value(&root, key, insert_buf) {
                    Some(v) => {
                        match v {
                            Item::Primitive(Primitive::NumberPrimitive(n)) => Some(n),
                            _ => None,
                        }
                    },
                    None => None,
                }
            },
        }
    }

    /// Reorder the working set by the number stored one key hop from each
    /// root: keyed links in key order, the rest after them in their original
    /// order.
    #[verifier::loop_isolation(false)]
    pub fn apply_sort(
        &self,
        query: &crate::query::SortQuery,
        filter_buf: &mut FilterBuffer,
        insert_buf: &InsertBuffer,
    )
        ensures
            final(filter_buf)@ == sort_result_spec(
                self@.collections,
                insert_buf@.entries,
                old(filter_buf)@,
                query.key@,
                query.ascending,
            ),
    {
        let ghost colls = self@.collections;
        let ghost entries = insert_buf@.entries;
        let ghost ids0 = filter_buf@;
        let ghost kk = query.key@;
        let asc = query.ascending;
        let mut keyed: Vec<(i64, Link)> = Vec::new();
        let mut keyless: Vec<Link> = Vec::new();
        proof {
            assert(pairs_model(keyed@) =~= Seq::<(i64, LinkModel)>::empty());
            assert(crate::views::links_model(keyless@) =~= Seq::<LinkModel>::empty());
        }
        let mut i: usize = 0;
        while i < filter_buf.ids.len()
            invariant
                0 <= i <= filter_buf.ids@.len(),
                ids0 == filter_buf@,
                sort_pass_spec(colls, entries, ids0, kk, asc, 0, Seq::empty(), Seq::empty())
                    == sort_pass_spec(
                    colls,
                    entries,
                    ids0,
                    kk,
                    asc,
                    i as int,
                    pairs_model(keyed@),
                    crate::views::links_model(keyless@),
                ),
            decreases filter_buf.ids@.len() - i,
        {
            let id = filter_buf.ids[i].clone();
            let ghost prev_pairs = pairs_model(keyed@);
            let ghost prev_keyless = crate::views::links_model(keyless@);
            match self.eval_sort_key(&id, &query.key, insert_buf) {
                Some(n) => {
                    let mut j: usize = 0;
                    while j < keyed.len() && ((asc && keyed[j].0 < n) || (!asc && keyed[j].0 > n))
                        invariant
                            0 <= j <= keyed@.len(),
                            forall|m: int|
                                0 <= m < j ==> !((asc && n <= (#[trigger] keyed@[m]).0) || (!asc
                                    && n >= keyed@[m].0)),
                        decreases keyed@.len() - j,
                    {
                        j += 1;
                    }
                    keyed.insert(j, (n, id));
                    proof {
                        lemma_sort_insert_at(prev_pairs, (n, ids0[i as int]), asc, j as int);
                        assert(pairs_model(keyed@) =~= prev_pairs.take(j as int) + seq![
                            (n, ids0[i as int]),
                        ] + prev_pairs.skip(j as int));
                    }
                },
                None => {
                    keyless.push(id);
                    proof {
                        assert(crate::views::links_model(keyless@) =~= prev_keyless.push(
                            ids0[i as int],
                        ));
                    }
                },
            }
            i += 1;
        }
        let mut out: Vec<Link> = Vec::new();
        let mut a: usize = 0;
        while a < keyed.len()
            invariant
                0 <= a <= keyed@.len(),
                out@.len() == a,
                forall|j: int| 0 <= j < a ==> (#[trigger] out@[j])@ == keyed@[j].1@,
            decreases keyed@.len() - a,
        {
            out.push(keyed[a].1.clone());
            a += 1;
        }
        let mut b: usize = 0;
        while b < keyless.len()
            invariant
                0 <= b <= keyless@.len(),
                out@.len() == keyed@.len() + b,
                forall|j: int| 0 <= j < keyed@.len() ==> (#[trigger] out@[j])@ == keyed@[j].1@,
                forall|j: int|
                    0 <= j < b ==> (#[trigger] out@[keyed@.len() + j])@ == keyless@[j]@,
            decreases keyless@.len() - b,
        {
            out.push(keyless[b].clone());
            b += 1;
        }
        filter_buf.ids = out;
        proof {
            let expect = pair_links(pairs_model(keyed@)) + crate::views::links_model(keyless@);
            assert(filter_buf@.len() == expect.len());
            assert forall|j: int| 0 <= j < filter_buf@.len() implies filter_buf@[j] == expect[j] by {
                if j < keyed@.len() {
                    assert(out@[j]@ == keyed@[j].1@);
                } else {
                    assert(out@[keyed@.len() + (j - keyed@.len())]@ == keyless@[j
                        - keyed@.len()]@);
                }
            }
            assert(filter_buf@ =~= expect);
        }
    }

    /// Dereference every matched link, each into a two-place array of the
    /// link and its resolved value (through the projection when one is
    /// recorded), assembling the step's result.  The result is deliberately
    /// an array of `[link, value]` rows rather than a mapping keyed by the
    /// link: mapping keys here are strings, so a link-keyed mapping has no
    /// place in the value model; content and order are unchanged.
    #[verifier::loop_isolation(false)]
    pub fn fetch_found_ids(
        &self,
        buf: &FilterBuffer,
        insert_buf: &InsertBuffer,
        projection_rules: Option<&ProjectQuery>,
    ) -> (r: Result<Item, DBError>)
        ensures
            match fetch_ids_spec(
                self@.collections,
                insert_buf@.entries,
                buf@,
                opt_proj(projection_rules),
                0,
            ) {
                Ok(rows) => r is Ok && r->Ok_0@ == ItemModel::Array(rows),
                Err(e) => r == Err::<Item, DBError>(e),
            },
    {
        let ghost colls = self@.collections;
        let ghost entries = insert_buf@.entries;
        let ghost ids = buf@;
        let ghost proj = opt_proj(projection_rules);
        let mut out: Vec<Item> = Vec::new();
        let mut i: usize = 0;
        while i < buf.ids.len()
            invariant
                0 <= i <= buf.ids@.len(),
                ids == buf@,
                proj == opt_proj(projection_rules),
                match fetch_ids_spec(colls, entries, ids, proj, i as int) {
                    Ok(rest) => fetch_ids_spec(colls, entries, ids, proj, 0) == Ok::<
                        Seq<ItemModel>,
                        DBError,
                    >(elems_model(out@) + rest),
                    Err(e) => fetch_ids_spec(colls, entries, ids, proj, 0) == Err::<
                        Seq<ItemModel>,
                        DBError,
                    >(e),
                },
            decreases buf.ids@.len() - i,
        {
            let ghost prev = elems_model(out@);
            let id = &buf.ids[i];
            match self.get_item_by_link(id, insert_buf, 0, projection_rules) {
                Ok(v) => {
                    let ghost vv = v@;
                    let mut pair: Vec<Item> = Vec::new();
                    pair.push(Item::Primitive(Primitive::Link(id.clone())));
                    pair.push(v);
                    let row = Item::Vector(pair);
                    proof {
                        assert(row@ == ItemModel::Array(elems_model(pair@)));
                        assert(elems_model(pair@) =~= seq![
                            ItemModel::LinkTo(ids[i as int]),
                            vv,
                        ]);
                    }
                    let ghost rv = row@;
                    out.push(row);
                    proof {
                        assert(elems_model(out@) =~= prev.push(rv));
                        if fetch_ids_spec(colls, entries, ids, proj, i + 1) is Ok {
                            let rest2 = fetch_ids_spec(colls, entries, ids, proj, i + 1)->Ok_0;
                            assert(prev + (seq![rv] + rest2) =~= elems_model(out@) + rest2);
                        }
                    }
                },
                Err(e) => {
                    return Err(e);
                },
            }
            i += 1;
        }
        proof {
            assert(elems_model(out@) + Seq::<ItemModel>::empty() =~= elems_model(out@));
        }
        Ok(Item::Vector(out))
    }

    /// Commit the staged buffer: drop the marked collections, then — only if
    /// the buffer reports changes — apply every staged record in order.  The
    /// commit is all-or-nothing: on any consistency error the warehouse is
    /// left untouched.
    #[verifier::loop_isolation(false)]
    pub fn sync_buf(&mut self, buf: &InsertBuffer) -> (r: Result<(), DBError>)
        ensures
            match crate::semantics::commit_spec(old(self)@.collections, buf@) {
                Ok(c2) => r is Ok && final(self)@.collections == c2 && final(self)@.next_id == old(
                    self,
                )@.next_id,
                Err(e) => r == Err::<(), DBError>(e) && *final(self) == *old(self),
            },
    {
        let ghost colls0 = self@.collections;
        let ghost dropped = buf@.dropped;
        let mut wh: Vec<Collection> = Vec::new();
        let mut i: usize = 0;
        while i < self.warehouse.len()
            invariant
                0 <= i <= self.warehouse@.len(),
                colls0 == self@.collections,
                crate::semantics::surviving(colls0, dropped, 0) == colls_model(wh@)
                    + crate::semantics::surviving(colls0, dropped, i as int),
            decreases self.warehouse@.len() - i,
        {
            let ghost prev = colls_model(wh@);
            if !names_contains(&buf.dropped_collections, &self.warehouse[i].name) {
                wh.push(self.warehouse[i].dup());
                proof {
                    assert(colls_model(wh@) =~= prev.push(colls0[i as int]));
                    assert(prev + (seq![colls0[i as int]] + crate::semantics::surviving(
                        colls0,
                        dropped,
                        i + 1,
                    )) =~= colls_model(wh@) + crate::semantics::surviving(colls0, dropped, i + 1));
                }
            } else {
                proof {
                    assert(prev + (Seq::<CollectionModel>::empty()
                        + crate::semantics::surviving(colls0, dropped, i + 1)) =~= colls_model(wh@)
                        + crate::semantics::surviving(colls0, dropped, i + 1));
                }
            }
            i += 1;
        }
        proof {
            assert(colls_model(wh@) + Seq::<CollectionModel>::empty() =~= colls_model(wh@));
            assert(colls_model(wh@) == crate::semantics::drop_names(colls0, dropped));
        }
        let ghost colls1 = colls_model(wh@);
        if buf.changed {
            let ghost entries = buf@.entries;
            let mut k: usize = 0;
            while k < buf.items.len()
                invariant
                    0 <= k <= buf.items@.len(),
                    entries == buf@.entries,
                    colls1 == crate::semantics::drop_names(colls0, dropped),
                    colls0 == self@.collections,
                    match crate::semantics::commit_entries(colls_model(wh@), entries, k as int) {
                        Ok(c2) => crate::semantics::commit_entries(colls1, entries, 0) == Ok::<
                            Seq<CollectionModel>,
                            DBError,
                        >(c2),
                        Err(e) => crate::semantics::commit_entries(colls1, entries, 0) == Err::<
                            Seq<CollectionModel>,
                            DBError,
                        >(e),
                    },
                decreases buf.items@.len() - k,
            {
                let entry = &buf.items[k];
                proof {
                    assert(entries[k as int] == (entry.0@, entry.1@));
                }
                match commit_entry(&mut wh, &entry.0, &entry.1) {
                    Ok(()) => {},
                    Err(e) => {
                        return Err(e);
                    },
                }
                k += 1;
            }
        }
        self.warehouse = wh;
        Ok(())
    }

    /// Execute one query step against this warehouse: items run strictly in
    /// order, each first checked against the currently permitted operations;
    /// matched links accumulate in the step's filter buffer and writes in the
    /// transaction's insert buffer; a recorded projection is step-scoped; at
    /// the last item a still-unresolved response is completed by fetching the
    /// matched links, through the recorded projection if one is set.  Result,
    /// final buffer and response are exactly `step_spec` of the inputs.
    #[verifier::loop_isolation(false)]
    #[verifier::rlimit(100)]
    #[verifier::spinoff_prover]
    pub fn run_step(
        &self,
        collection_name: &String,
        items: &Vec<crate::query::QueryItem>,
        insert_buf: &mut InsertBuffer,
    ) -> (r: Result<crate::response::QueryResponse, DBError>)
        ensures
            match step_spec(self@.collections, collection_name@, items@, old(insert_buf)@) {
                Ok((b2, resp)) => r is Ok && final(insert_buf)@ == b2
                    && crate::response::response_model(r->Ok_0) == resp,
                Err(e) => r == Err::<crate::response::QueryResponse, DBError>(e),
            },
            r is Ok ==> crate::ops::sequencing_ok(crate::query::ops_of(items@)),
            items@.len() > 0 && crate::query::op_of(items@[0])
                == crate::ops::QueryOperation::DeleteOperation && r is Ok ==> final(insert_buf)@.dropped
                == old(insert_buf)@.dropped.push(collection_name@),
            !(items@.len() > 0 && crate::query::op_of(items@[0])
                == crate::ops::QueryOperation::DeleteOperation) ==> final(insert_buf)@.dropped == old(
                insert_buf,
            )@.dropped,
    {
        let ghost colls = self@.collections;
        let ghost ops = crate::query::ops_of(items@);
        let ghost buf0 = insert_buf@;
        let ghost cname = collection_name@;
        let ghost init = init_step_state(buf0);
        let mut filter_buf = FilterBuffer::new();
        let mut projection: Option<ProjectQuery> = None;
        let mut next_ops = crate::ops::initial_ops();
        let mut response = crate::response::QueryResponse::new(
            Item::Primitive(Primitive::NullPrimitive),
            crate::response::Meta::FindMeta { count: 0 },
            crate::response::QueryStatus::Ready,
        );
        proof {
            assert((StepState {
                permitted: next_ops@,
                filter: filter_buf@,
                buf: insert_buf@,
                proj: proj_model(projection),
                response: crate::response::response_model(response),
            }) =~= init);
        }
        let mut i: usize = 0;
        while i < items.len()
            invariant
                0 <= i <= items@.len(),
                ops == crate::query::ops_of(items@),
                buf0 == old(insert_buf)@,
                cname == collection_name@,
                init == init_step_state(buf0),
                colls == self@.collections,
                step_fold(
                    colls,
                    cname,
                    items@,
                    (StepState {
                        permitted: next_ops@,
                        filter: filter_buf@,
                        buf: insert_buf@,
                        proj: proj_model(projection),
                        response: crate::response::response_model(response),
                    }),
                    i as int,
                ) == step_fold(colls, cname, items@, init, 0),
                next_ops@ == (if i == 0 {
                    crate::ops::initial_ops_spec()
                } else {
                    crate::ops::successors_spec(crate::query::op_of(items@[i - 1]))
                }),
                crate::ops::sequencing_ok(ops) <==> crate::ops::sequencing_ok_from(
                    next_ops@,
                    ops,
                    i as int,
                ),
                (i == 0 || crate::query::op_of(items@[0])
                    != crate::ops::QueryOperation::DeleteOperation) ==> insert_buf@.dropped
                    == buf0.dropped,
                (i > 0 && crate::query::op_of(items@[0])
                    == crate::ops::QueryOperation::DeleteOperation) ==> insert_buf@.dropped
                    == buf0.dropped.push(cname),
            decreases items@.len() - i,
        {
            let ghost prev = StepState {
                permitted: next_ops@,
                filter: filter_buf@,
                buf: insert_buf@,
                proj: proj_model(projection),
                response: crate::response::response_model(response),
            };
            let q = &items[i];
            let op = q.operation();
            if !crate::ops::ops_permit(&next_ops, op) {
                proof {
                    assert(item_effect(colls, cname, prev, items@[i as int], i as int) == Err::<
                        StepState,
                        DBError,
                    >(DBError::Unavailable(op)));
                    assert(step_fold(colls, cname, items@, init, 0) == Err::<StepState, DBError>(
                        DBError::Unavailable(op),
                    ));
                }
                return Err(DBError::Unavailable(op));
            }
            match q {
                crate::query::QueryItem::Insert(o) => {
                    match self.insert_many(collection_name, &o.items, insert_buf) {
                        Ok(links) => {
                            let count = links.len();
                            response = crate::response::QueryResponse::new(
                                Item::Vector(links),
                                crate::response::Meta::FindMeta { count },
                                crate::response::QueryStatus::Ready,
                            );
                        },
                        Err(e) => {
                            proof {
                                assert(item_effect(colls, cname, prev, items@[i as int], i as int)
                                    == Err::<StepState, DBError>(e));
                            }
                            return Err(e);
                        },
                    }
                },
                crate::query::QueryItem::Find(o) => {
                    let first = i == 0;
                    self.find(collection_name, o, &mut filter_buf, insert_buf, first);
                    response = crate::response::QueryResponse::new(
                        Item::Primitive(Primitive::NullPrimitive),
                        crate::response::Meta::FindMeta { count: filter_buf.ids.len() },
                        crate::response::QueryStatus::NotFetched,
                    );
                },
                crate::query::QueryItem::Get(o) => {
                    let mut g: usize = 0;
                    while g < o.links.len()
                        invariant
                            0 <= g <= o.links@.len(),
                            filter_buf@ == prev.filter + crate::views::links_model(
                                o.links@,
                            ).take(g as int),
                        decreases o.links@.len() - g,
                    {
                        filter_buf.push(o.links[g].clone());
                        proof {
                            assert(filter_buf@ =~= prev.filter + crate::views::links_model(
                                o.links@,
                            ).take(g + 1));
                        }
                        g += 1;
                    }
                    proof {
                        assert(crate::views::links_model(o.links@).take(o.links@.len() as int)
                            =~= o@);
                        assert(filter_buf@ == prev.filter + o@);
                    }
                    response = crate::response::QueryResponse::new(
                        Item::Primitive(Primitive::NullPrimitive),
                        crate::response::Meta::FindMeta { count: filter_buf.ids.len() },
                        crate::response::QueryStatus::NotFetched,
                    );
                },
                crate::query::QueryItem::Update(o) => {
                    match self.apply_update(o, insert_buf, &filter_buf) {
                        Ok(()) => {},
                        Err(e) => {
                            proof {
                                assert(item_effect(colls, cname, prev, items@[i as int], i as int)
                                    == Err::<StepState, DBError>(e));
                            }
                            return Err(e);
                        },
                    }
                    response = crate::response::QueryResponse::new(
                        Item::Primitive(Primitive::NullPrimitive),
                        crate::response::Meta::FindMeta { count: filter_buf.ids.len() },
                        crate::response::QueryStatus::NotFetched,
                    );
                },
                crate::query::QueryItem::Sort(o) => {
                    self.apply_sort(o, &mut filter_buf, insert_buf);
                    response = crate::response::QueryResponse::new(
                        Item::Primitive(Primitive::NullPrimitive),
                        crate::response::Meta::FindMeta { count: filter_buf.ids.len() },
                        crate::response::QueryStatus::NotFetched,
                    );
                },
                crate::query::QueryItem::Delete(_) => {
                    if i == 0 {
                        insert_buf.add_collection_to_drop(collection_name.clone());
                        response = crate::response::QueryResponse::new(
                            Item::Primitive(Primitive::NullPrimitive),
                            crate::response::Meta::DeleteMeta { count: 0 },
                            crate::response::QueryStatus::Ready,
                        );
                        proof {
                            assert(insert_buf@ =~= (crate::model::BufferModel {
                                dropped: prev.buf.dropped.push(cname),
                                ..prev.buf
                            }));
                        }
                    } else {
                        let mut values: Vec<(crate::query::SetTarget, Item)> = Vec::new();
                        values.push(
                            (
                                crate::query::SetTarget::RootTarget,
                                Item::Primitive(Primitive::DeletedPrimitive),
                            ),
                        );
                        let mut operators: Vec<crate::query::SetOperator> = Vec::new();
                        operators.push(crate::query::SetOperator { values });
                        let uq = crate::query::UpdateQuery { operators };
                        proof {
                            assert(uq.operators@[0]@ =~= seq![
                                (crate::query::SetTargetModel::RootT, ItemModel::Deleted),
                            ]);
                            assert(uq@ =~= tombstone_operators());
                        }
                        match self.apply_update(&uq, insert_buf, &filter_buf) {
                            Ok(()) => {},
                            Err(e) => {
                                proof {
                                    assert(item_effect(
                                        colls,
                                        cname,
                                        prev,
                                        items@[i as int],
                                        i as int,
                                    ) == Err::<StepState, DBError>(e));
                                }
                                return Err(e);
                            },
                        }
                        response = crate::response::QueryResponse::new(
                            Item::Primitive(Primitive::NullPrimitive),
                            crate::response::Meta::DeleteMeta { count: filter_buf.ids.len() },
                            crate::response::QueryStatus::NotFetched,
                        );
                    }
                },
                crate::query::QueryItem::Limit(o) => {
                    match self.apply_limit(o, &mut filter_buf) {
                        Ok(()) => {},
                        Err(e) => {
                            proof {
                                assert(item_effect(colls, cname, prev, items@[i as int], i as int)
                                    == Err::<StepState, DBError>(e));
                            }
                            return Err(e);
                        },
                    }
                    response = crate::response::QueryResponse::new(
                        Item::Primitive(Primitive::NullPrimitive),
                        crate::response::Meta::FindMeta { count: filter_buf.ids.len() },
                        crate::response::QueryStatus::NotFetched,
                    );
                },
                crate::query::QueryItem::Offset(o) => {
                    match self.apply_offset(o, &mut filter_buf) {
                        Ok(()) => {},
                        Err(e) => {
                            proof {
                                assert(item_effect(colls, cname, prev, items@[i as int], i as int)
                                    == Err::<StepState, DBError>(e));
                            }
                            return Err(e);
                        },
                    }
                    response = crate::response::QueryResponse::new(
                        Item::Primitive(Primitive::NullPrimitive),
                        crate::response::Meta::FindMeta { count: filter_buf.ids.len() },
                        crate::response::QueryStatus::NotFetched,
                    );
                },
                crate::query::QueryItem::Project(o) => {
                    projection = Some(o.dup());
                    response = crate::response::QueryResponse::new(
                        Item::Primitive(Primitive::NullPrimitive),
                        crate::response::Meta::FindMeta { count: filter_buf.ids.len() },
                        crate::response::QueryStatus::NotFetched,
                    );
                },
                crate::query::QueryItem::Index(_) => {
                    response = crate::response::QueryResponse::new(
                        Item::Primitive(Primitive::NullPrimitive),
                        crate::response::Meta::FindMeta { count: filter_buf.ids.len() },
                        crate::response::QueryStatus::NotFetched,
                    );
                },
            }
            next_ops = crate::ops::successors(op);
            proof {
                assert(op == crate::query::op_of(items@[i as int]));
                assert(ops[i as int] == op);
                let cur = StepState {
                    permitted: next_ops@,
                    filter: filter_buf@,
                    buf: insert_buf@,
                    proj: proj_model(projection),
                    response: crate::response::response_model(response),
                };
                assert(item_effect(colls, cname, prev, items@[i as int], i as int) == Ok::<
                    StepState,
                    DBError,
                >(cur));
            }
            i += 1;
        }
        let ghost done = StepState {
            permitted: next_ops@,
            filter: filter_buf@,
            buf: insert_buf@,
            proj: proj_model(projection),
            response: crate::response::response_model(response),
        };
        proof {
            assert(step_fold(colls, cname, items@, init, 0) == Ok::<StepState, DBError>(done));
        }
        let needs_fetch = match response.status {
            crate::response::QueryStatus::NotFetched => true,
            crate::response::QueryStatus::Ready => false,
        };
        if needs_fetch {
            let proj_ref: Option<&ProjectQuery> = match &projection {
                Some(p) => Some(p),
                None => None,
            };
            proof {
                assert(opt_proj(proj_ref) == proj_model(projection));
            }
            let data = match self.fetch_found_ids(&filter_buf, insert_buf, proj_ref) {
                Ok(d) => d,
                Err(e) => {
                    return Err(e);
                },
            };
            let meta = response.meta;
            response = crate::response::QueryResponse::new(
                data,
                meta,
                crate::response::QueryStatus::Ready,
            );
        }
        Ok(response)
    }

    /// Execute every step of a transaction against this warehouse, staging
    /// all writes in a fresh insert buffer and accumulating one response per
    /// step in arrival order.  The warehouse itself is read, never written;
    /// result, final buffer and responses are exactly `steps_fold` of the
    /// transaction.
    #[verifier::loop_isolation(false)]
    #[verifier::rlimit(100)]
    #[verifier::spinoff_prover]
    pub fn run_transaction_steps(&self, transaction: &crate::query::Transaction) -> (r: Result<
        (crate::response::OkTransactionResponse, InsertBuffer),
        DBError,
    >)
        ensures
            match steps_fold(
                self@.collections,
                transaction.steps@,
                fresh_buffer(self@.next_id),
                0,
            ) {
                Ok((b2, resps)) => r is Ok && r->Ok_0.1@ == b2 && crate::response::responses_model(
                    r->Ok_0.0.responses@,
                ) == resps,
                Err(e) => r == Err::<
                    (crate::response::OkTransactionResponse, InsertBuffer),
                    DBError,
                >(e),
            },
            r is Ok ==> forall|k: int|
                0 <= k < transaction.steps@.len() ==> crate::ops::sequencing_ok(
                    crate::query::ops_of((#[trigger] transaction.steps@[k]).items@),
                ),
    {
        let ghost colls = self@.collections;
        let ghost steps = transaction.steps@;
        let mut response = crate::response::OkTransactionResponse::new();
        let mut insert_buf = InsertBuffer::new(self.next_id);
        let ghost binit = fresh_buffer(self@.next_id);
        proof {
            assert(insert_buf@ =~= binit);
        }
        let mut i: usize = 0;
        while i < transaction.steps.len()
            invariant
                0 <= i <= steps.len(),
                steps == transaction.steps@,
                colls == self@.collections,
                binit == fresh_buffer(self@.next_id),
                response.responses@.len() == i,
                match steps_fold(colls, steps, insert_buf@, i as int) {
                    Ok((b2, rest)) => steps_fold(colls, steps, binit, 0) == Ok::<
                        (crate::model::BufferModel, Seq<crate::response::ResponseModel>),
                        DBError,
                    >((b2, crate::response::responses_model(response.responses@) + rest)),
                    Err(e) => steps_fold(colls, steps, binit, 0) == Err::<
                        (crate::model::BufferModel, Seq<crate::response::ResponseModel>),
                        DBError,
                    >(e),
                },
                forall|k: int|
                    0 <= k < i ==> crate::ops::sequencing_ok(
                        crate::query::ops_of((#[trigger] transaction.steps@[k]).items@),
                    ),
            decreases steps.len() - i,
        {
            let ghost prev = crate::response::responses_model(response.responses@);
            let step = &transaction.steps[i];
            match self.run_step(&step.collection_name, &step.items, &mut insert_buf) {
                Ok(qr) => {
                    let ghost qrm = crate::response::response_model(qr);
                    response.add_response(qr);
                    proof {
                        assert(crate::response::responses_model(response.responses@) =~= prev.push(
                            qrm,
                        ));
                        if steps_fold(colls, steps, insert_buf@, i + 1) is Ok {
                            let rest2 = steps_fold(colls, steps, insert_buf@, i + 1)->Ok_0.1;
                            assert(prev + (seq![qrm] + rest2)
                                =~= crate::response::responses_model(response.responses@) + rest2);
                        }
                    }
                },
                Err(e) => {
                    return Err(e);
                },
            }
            i += 1;
        }
        proof {
            assert(crate::response::responses_model(response.responses@) + Seq::<
                crate::response::ResponseModel,
            >::empty() =~= crate::response::responses_model(response.responses@));
        }
        Ok((response, insert_buf))
    }

    /// Run a whole transaction: execute every step, and only if all of them
    /// succeeded commit the staged buffer.  The outcome is total: the steps'
    /// fold and then the commit decide the result exactly, and any error
    /// anywhere leaves the warehouse exactly as it was.
    pub fn run_transaction(&mut self, transaction: Transaction) -> (r: Result<
        crate::response::OkTransactionResponse,
        DBError,
    >)
        ensures
            match steps_fold(
                old(self)@.collections,
                transaction.steps@,
                fresh_buffer(old(self)@.next_id),
                0,
            ) {
                Err(e) => r == Err::<crate::response::OkTransactionResponse, DBError>(e)
                    && *final(self) == *old(self),
                Ok((b2, resps)) => match crate::semantics::commit_spec(
                    old(self)@.collections,
                    b2,
                ) {
                    Ok(c2) => r is Ok && crate::response::responses_model(r->Ok_0.responses@)
                        == resps && final(self)@.collections == c2 && final(self)@.next_id
                        == b2.next_id,
                    Err(e) => r == Err::<crate::response::OkTransactionResponse, DBError>(e)
                        && *final(self) == *old(self),
                },
            },
            r is Ok ==> forall|k: int|
                0 <= k < transaction.steps@.len() ==> crate::ops::sequencing_ok(
                    crate::query::ops_of((#[trigger] transaction.steps@[k]).items@),
                ),
    {
        let outcome = self.run_transaction_steps(&transaction);
        let (response, buf) = match outcome {
            Ok(x) => x,
            Err(e) => {
                return Err(e);
            },
        };
        match self.sync_buf(&buf) {
            Ok(()) => {
                self.next_id = buf.next_id;
                Ok(response)
            },
            Err(e) => Err(e),
        }
    }

    /// Run a transaction and wrap the outcome in the response envelope the
    /// caller serializes: the accumulated step responses on success, the
    /// structured error that aborted the transaction otherwise.
    pub fn run(&mut self, transaction: Transaction) -> (r: crate::response::TransactionResult)
        ensures
            match steps_fold(
                old(self)@.collections,
                transaction.steps@,
                fresh_buffer(old(self)@.next_id),
                0,
            ) {
                Err(e) => r == crate::response::TransactionResult::Failed(e) && *final(self)
                    == *old(self),
                Ok((b2, resps)) => match crate::semantics::commit_spec(
                    old(self)@.collections,
                    b2,
                ) {
                    Ok(c2) => r is Committed && crate::response::responses_model(
                        r->Committed_0.responses@,
                    ) == resps && final(self)@.collections == c2 && final(self)@.next_id
                        == b2.next_id,
                    Err(e) => r == crate::response::TransactionResult::Failed(e) && *final(self)
                        == *old(self),
                },
            },
    {
        match self.run_transaction(transaction) {
            Ok(response) => crate::response::TransactionResult::Committed(response),
            Err(e) => crate::response::TransactionResult::Failed(e),
        }
    }
}


/// Insert each item (from index `i` on) into `name`, collecting the link
/// primitives naming the staged roots.
pub open spec fn insert_many_spec(
    buf: crate::model::BufferModel,
    name: Seq<char>,
    items: Seq<ItemModel>,
    i: int,
) -> Result<(crate::model::BufferModel, Seq<ItemModel>), DBError>
    decreases items.len() - i,
{
    if i < 0 || i >= items.len() {
        Ok((buf, Seq::empty()))
    } else {
        match stage_spec(buf, name, items[i]) {
            Err(e) => Err(e),
            Ok((b2, li)) => match insert_many_spec(b2, name, items, i + 1) {
                Err(e) => Err(e),
                Ok((b3, rest)) => Ok((b3, seq![li] + rest)),
            },
        }
    }
}


/// What a limit does to the working set: a non-negative number keeps the
/// first so-many links; anything else is a malformed query.
pub open spec fn limit_spec(ids: Seq<LinkModel>, v: ItemModel) -> Result<Seq<LinkModel>, DBError> {
    match v {
        ItemModel::Number(n) => if n < 0 {
            Err(DBError::MalformedQuery)
        } else if (n as int) < ids.len() {
            Ok(ids.take(n as int))
        } else {
            Ok(ids)
        },
        _ => Err(DBError::MalformedQuery),
    }
}

/// What an offset does to the working set: a non-negative number drops the
/// first so-many links; anything else is a malformed query.
pub open spec fn offset_spec(ids: Seq<LinkModel>, v: ItemModel) -> Result<Seq<LinkModel>, DBError> {
    match v {
        ItemModel::Number(n) => if n < 0 {
            Err(DBError::MalformedQuery)
        } else if (n as int) < ids.len() {
            Ok(ids.skip(n as int))
        } else {
            Ok(Seq::empty())
        },
        _ => Err(DBError::MalformedQuery),
    }
}

/// Model of the keyed pairs extracted while sorting.
pub open spec fn pairs_model(s: Seq<(i64, Link)>) -> Seq<(i64, LinkModel)> {
    Seq::new(s.len(), |i: int| (s[i].0, s[i].1@))
}

/// The links of a keyed-pair sequence, in order.
pub open spec fn pair_links(pairs: Seq<(i64, LinkModel)>) -> Seq<LinkModel> {
    Seq::new(pairs.len(), |i: int| pairs[i].1)
}

/// Insert `p` into a key-sorted pair sequence, before the first pair it does
/// not come after.
pub open spec fn sort_insert_spec(
    pairs: Seq<(i64, LinkModel)>,
    p: (i64, LinkModel),
    asc: bool,
) -> Seq<(i64, LinkModel)>
    decreases pairs.len(),
{
    if pairs.len() == 0 {
        seq![p]
    } else if (asc && p.0 <= pairs[0].0) || (!asc && p.0 >= pairs[0].0) {
        seq![p] + pairs
    } else {
        seq![pairs[0]] + sort_insert_spec(pairs.drop_first(), p, asc)
    }
}

/// `sort_insert_spec` places `p` exactly at the first position whose key it
/// does not come after.
pub proof fn lemma_sort_insert_at(
    pairs: Seq<(i64, LinkModel)>,
    p: (i64, LinkModel),
    asc: bool,
    j: int,
)
    requires
        0 <= j <= pairs.len(),
        forall|m: int|
            0 <= m < j ==> !((asc && p.0 <= (#[trigger] pairs[m]).0) || (!asc && p.0
                >= pairs[m].0)),
        j < pairs.len() ==> ((asc && p.0 <= pairs[j].0) || (!asc && p.0 >= pairs[j].0)),
    ensures
        sort_insert_spec(pairs, p, asc) == pairs.take(j) + seq![p] + pairs.skip(j),
    decreases pairs.len(),
{
    if pairs.len() == 0 {
        assert(sort_insert_spec(pairs, p, asc) =~= pairs.take(j) + seq![p] + pairs.skip(j));
    } else if (asc && p.0 <= pairs[0].0) || (!asc && p.0 >= pairs[0].0) {
        assert(j == 0);
        assert(sort_insert_spec(pairs, p, asc) =~= pairs.take(0) + seq![p] + pairs.skip(0));
    } else {
        assert(j >= 1);
        let t = pairs.drop_first();
        assert forall|m: int|
            0 <= m < j - 1 implies !((asc && p.0 <= (#[trigger] t[m]).0) || (!asc && p.0
            >= t[m].0)) by {
            assert(t[m] == pairs[m + 1]);
        }
        if j - 1 < t.len() {
            assert(t[j - 1] == pairs[j]);
        }
        lemma_sort_insert_at(t, p, asc, j - 1);
        assert(seq![pairs[0]] + (t.take(j - 1) + seq![p] + t.skip(j - 1)) =~= pairs.take(j)
            + seq![p] + pairs.skip(j));
    }
}

/// One pass over the working set: links with a numeric key are inserted into
/// a key-sorted pair sequence; the rest keep their order.
pub open spec fn sort_pass_spec(
    colls: Seq<CollectionModel>,
    entries: Seq<(LinkModel, ItemModel)>,
    ids: Seq<LinkModel>,
    key: Seq<char>,
    asc: bool,
    i: int,
    keyed: Seq<(i64, LinkModel)>,
    keyless: Seq<LinkModel>,
) -> (Seq<(i64, LinkModel)>, Seq<LinkModel>)
    decreases ids.len() - i,
{
    if i < 0 || i >= ids.len() {
        (keyed, keyless)
    } else {
        match crate::semantics::sort_key_spec(colls, entries, ids[i], key) {
            Some(n) => sort_pass_spec(
                colls,
                entries,
                ids,
                key,
                asc,
                i + 1,
                sort_insert_spec(keyed, (n, ids[i]), asc),
                keyless,
            ),
            None => sort_pass_spec(colls, entries, ids, key, asc, i + 1, keyed, keyless.push(ids[i])),
        }
    }
}

/// The working set after a sort: the keyed links in key order, then the links
/// without a numeric key in their original order.
pub open spec fn sort_result_spec(
    colls: Seq<CollectionModel>,
    entries: Seq<(LinkModel, ItemModel)>,
    ids: Seq<LinkModel>,
    key: Seq<char>,
    asc: bool,
) -> Seq<LinkModel> {
    let r = sort_pass_spec(colls, entries, ids, key, asc, 0, Seq::empty(), Seq::empty());
    pair_links(r.0) + r.1
}

/// Dereference every matched link (from index `i` on), each into a two-place
/// array of the link and its resolved value.
pub open spec fn fetch_ids_spec(
    colls: Seq<CollectionModel>,
    entries: Seq<(LinkModel, ItemModel)>,
    ids: Seq<LinkModel>,
    proj: Option<Seq<(ItemModel, ItemModel)>>,
    i: int,
) -> Result<Seq<ItemModel>, DBError>
    decreases ids.len() - i,
{
    if i < 0 || i >= ids.len() {
        Ok(Seq::empty())
    } else {
        match get_item_by_link_spec(colls, entries, ids[i], 0, proj) {
            Err(e) => Err(e),
            Ok(v) => match fetch_ids_spec(colls, entries, ids, proj, i + 1) {
                Err(e) => Err(e),
                Ok(rest) => Ok(
                    seq![ItemModel::Array(seq![ItemModel::LinkTo(ids[i]), v])] + rest,
                ),
            },
        }
    }
}


/// Whether `name` is among the names of `v`.
#[verifier::loop_isolation(false)]
pub fn names_contains(v: &Vec<String>, name: &String) -> (r: bool)
    ensures
        r == crate::views::names_model(v@).contains(name@),
{
    let ghost nm = crate::views::names_model(v@);
    let mut i: usize = 0;
    while i < v.len()
        invariant
            0 <= i <= v@.len(),
            forall|j: int| 0 <= j < i ==> (#[trigger] v@[j])@ != name@,
        decreases v@.len() - i,
    {
        if v[i] == *name {
            proof {
                assert(nm[i as int] == name@);
            }
            return true;
        }
        i += 1;
    }
    proof {
        assert(forall|j: int| 0 <= j < nm.len() ==> (#[trigger] nm[j]) != name@);
    }
    false
}

/// Retract, from the back-track index of `x`, the entry keyed by `from`; a
/// missing collection or row is tolerated.
pub fn retract_one_exec(wh: &mut Vec<Collection>, from: &Link, x: &Link)
    ensures
        colls_model(final(wh)@) == crate::semantics::retract_one(
            colls_model(old(wh)@),
            from@,
            x@,
        ),
        final(wh)@.len() == old(wh)@.len(),
        forall|j: int|
            0 <= j < final(wh)@.len() ==> (#[trigger] colls_model(final(wh)@)[j]).name
                == colls_model(old(wh)@)[j].name,
{
    let ghost colls0 = colls_model(wh@);
    match coll_find(wh, x.get_prefix()) {
        None => {},
        Some(ci) => {
            let mut c = wh.remove(ci);
            c.row_bt_remove(x, from);
            wh.insert(ci, c);
            proof {
                let after = colls_model(wh@);
                let expect = crate::semantics::retract_one(colls0, from@, x@);
                assert forall|j: int| 0 <= j < after.len() implies after[j] == expect[j] by {
                    if j == ci {
                        assert(after[j] =~= expect[j]);
                    }
                }
                assert(after =~= expect);
            }
        },
    }
}

/// Retract `from` from every link an array's elements reference.
#[verifier::loop_isolation(false)]
pub fn retract_elems_exec(wh: &mut Vec<Collection>, from: &Link, s: &Vec<Item>)
    ensures
        colls_model(final(wh)@) == crate::semantics::retract_elems(
            colls_model(old(wh)@),
            from@,
            elems_model(s@),
            0,
        ),
        final(wh)@.len() == old(wh)@.len(),
        forall|j: int|
            0 <= j < final(wh)@.len() ==> (#[trigger] colls_model(final(wh)@)[j]).name
                == colls_model(old(wh)@)[j].name,
{
    let ghost colls0 = colls_model(wh@);
    let ghost sm = elems_model(s@);
    let mut i: usize = 0;
    while i < s.len()
        invariant
            0 <= i <= s@.len(),
            crate::semantics::retract_elems(colls0, from@, sm, 0)
                == crate::semantics::retract_elems(colls_model(wh@), from@, sm, i as int),
            wh@.len() == old(wh)@.len(),
            forall|j: int|
                0 <= j < wh@.len() ==> (#[trigger] colls_model(wh@)[j]).name == colls0[j].name,
        decreases s@.len() - i,
    {
        match &s[i] {
            Item::Primitive(Primitive::Link(x)) => {
                proof {
                    assert(sm[i as int] == ItemModel::LinkTo(x@));
                }
                retract_one_exec(wh, from, x);
            },
            _ => {
                proof {
                    assert(!(sm[i as int] is LinkTo));
                }
            },
        }
        i += 1;
    }
}

/// Retract `from` from every link a mapping's entries reference.
#[verifier::loop_isolation(false)]
pub fn retract_entries_exec(wh: &mut Vec<Collection>, from: &Link, m: &Vec<(String, Item)>)
    ensures
        colls_model(final(wh)@) == crate::semantics::retract_entries(
            colls_model(old(wh)@),
            from@,
            entries_model(m@),
            0,
        ),
        final(wh)@.len() == old(wh)@.len(),
        forall|j: int|
            0 <= j < final(wh)@.len() ==> (#[trigger] colls_model(final(wh)@)[j]).name
                == colls_model(old(wh)@)[j].name,
{
    let ghost colls0 = colls_model(wh@);
    let ghost em = entries_model(m@);
    let mut i: usize = 0;
    while i < m.len()
        invariant
            0 <= i <= m@.len(),
            crate::semantics::retract_entries(colls0, from@, em, 0)
                == crate::semantics::retract_entries(colls_model(wh@), from@, em, i as int),
            wh@.len() == old(wh)@.len(),
            forall|j: int|
                0 <= j < wh@.len() ==> (#[trigger] colls_model(wh@)[j]).name == colls0[j].name,
        decreases m@.len() - i,
    {
        match &m[i].1 {
            Item::Primitive(Primitive::Link(x)) => {
                proof {
                    assert(em[i as int].1 == ItemModel::LinkTo(x@));
                }
                retract_one_exec(wh, from, x);
            },
            _ => {
                proof {
                    assert(!(em[i as int].1 is LinkTo));
                }
            },
        }
        i += 1;
    }
}

/// Retract `from` from the back-track index of every link `item` references.
pub fn retract_item_exec(wh: &mut Vec<Collection>, from: &Link, item: &Item)
    ensures
        colls_model(final(wh)@) == crate::semantics::retract_item(
            colls_model(old(wh)@),
            from@,
            item@,
        ),
        final(wh)@.len() == old(wh)@.len(),
        forall|j: int|
            0 <= j < final(wh)@.len() ==> (#[trigger] colls_model(final(wh)@)[j]).name
                == colls_model(old(wh)@)[j].name,
{
    match item {
        Item::Primitive(Primitive::Link(x)) => retract_one_exec(wh, from, x),
        Item::Primitive(_) => {},
        Item::Vector(v) => retract_elems_exec(wh, from, v),
        Item::Mapping(m) => retract_entries_exec(wh, from, m),
    }
}

/// Record in the back-track index of `x` that `from` references it at `path`;
/// a missing collection or row is an internal consistency error.
pub fn add_one_exec(wh: &mut Vec<Collection>, x: &Link, from: &Link, path: TrackPath) -> (r:
    Result<(), DBError>)
    ensures
        match crate::semantics::add_one(colls_model(old(wh)@), x@, from@, path@) {
            Ok(c2) => r is Ok && colls_model(final(wh)@) == c2,
            Err(e) => r == Err::<(), DBError>(e) && colls_model(final(wh)@) == colls_model(
                old(wh)@,
            ),
        },
        final(wh)@.len() == old(wh)@.len(),
        forall|j: int|
            0 <= j < final(wh)@.len() ==> (#[trigger] colls_model(final(wh)@)[j]).name
                == colls_model(old(wh)@)[j].name,
{
    let ghost colls0 = colls_model(wh@);
    match coll_find(wh, x.get_prefix()) {
        None => Err(DBError::InternalConsistency),
        Some(ci) => {
            let mut c = wh.remove(ci);
            let found = c.row_bt_put(x, from, path);
            wh.insert(ci, c);
            proof {
                let after = colls_model(wh@);
                assert forall|j: int| 0 <= j < after.len() implies after[j].name == colls0[j].name
                    by {}
            }
            if found {
                proof {
                    let after = colls_model(wh@);
                    let expect = crate::semantics::add_one(colls0, x@, from@, path@)->Ok_0;
                    assert forall|j: int| 0 <= j < after.len() implies after[j] == expect[j] by {
                        if j == ci {
                            assert(after[j] =~= expect[j]);
                        }
                    }
                    assert(after =~= expect);
                }
                Ok(())
            } else {
                proof {
                    let after = colls_model(wh@);
                    assert forall|j: int| 0 <= j < after.len() implies after[j] == colls0[j] by {
                        if j == ci {
                            assert(after[j] =~= colls0[j]);
                        }
                    }
                    assert(after =~= colls0);
                }
                Err(DBError::InternalConsistency)
            }
        },
    }
}

/// Record `from` in every element's target; every element of a committed
/// array must be a link.
#[verifier::loop_isolation(false)]
pub fn add_elems_exec(wh: &mut Vec<Collection>, from: &Link, s: &Vec<Item>) -> (r: Result<
    (),
    DBError,
>)
    ensures
        match crate::semantics::add_elems(colls_model(old(wh)@), from@, elems_model(s@), 0) {
            Ok(c2) => r is Ok && colls_model(final(wh)@) == c2,
            Err(e) => r == Err::<(), DBError>(e),
        },
        final(wh)@.len() == old(wh)@.len(),
        forall|j: int|
            0 <= j < final(wh)@.len() ==> (#[trigger] colls_model(final(wh)@)[j]).name
                == colls_model(old(wh)@)[j].name,
{
    let ghost colls0 = colls_model(wh@);
    let ghost sm = elems_model(s@);
    let mut i: usize = 0;
    while i < s.len()
        invariant
            0 <= i <= s@.len(),
            match crate::semantics::add_elems(colls_model(wh@), from@, sm, i as int) {
                Ok(c2) => crate::semantics::add_elems(colls0, from@, sm, 0) == Ok::<
                    Seq<CollectionModel>,
                    DBError,
                >(c2),
                Err(e) => crate::semantics::add_elems(colls0, from@, sm, 0) == Err::<
                    Seq<CollectionModel>,
                    DBError,
                >(e),
            },
            wh@.len() == old(wh)@.len(),
            forall|j: int|
                0 <= j < wh@.len() ==> (#[trigger] colls_model(wh@)[j]).name == colls0[j].name,
        decreases s@.len() - i,
    {
        match &s[i] {
            Item::Primitive(Primitive::Link(x)) => {
                proof {
                    assert(sm[i as int] == ItemModel::LinkTo(x@));
                }
                match add_one_exec(wh, x, from, TrackPath::AtIndex(i)) {
                    Ok(()) => {},
                    Err(e) => {
                        return Err(e);
                    },
                }
            },
            _ => {
                proof {
                    assert(!(sm[i as int] is LinkTo));
                }
                return Err(DBError::InternalConsistency);
            },
        }
        i += 1;
    }
    Ok(())
}

/// Record `from` in every entry value's target; every entry value of a
/// committed mapping must be a link.
#[verifier::loop_isolation(false)]
pub fn add_entries_exec(wh: &mut Vec<Collection>, from: &Link, m: &Vec<(String, Item)>) -> (r:
    Result<(), DBError>)
    ensures
        match crate::semantics::add_entries(colls_model(old(wh)@), from@, entries_model(m@), 0) {
            Ok(c2) => r is Ok && colls_model(final(wh)@) == c2,
            Err(e) => r == Err::<(), DBError>(e),
        },
        final(wh)@.len() == old(wh)@.len(),
        forall|j: int|
            0 <= j < final(wh)@.len() ==> (#[trigger] colls_model(final(wh)@)[j]).name
                == colls_model(old(wh)@)[j].name,
{
    let ghost colls0 = colls_model(wh@);
    let ghost em = entries_model(m@);
    let mut i: usize = 0;
    while i < m.len()
        invariant
            0 <= i <= m@.len(),
            match crate::semantics::add_entries(colls_model(wh@), from@, em, i as int) {
                Ok(c2) => crate::semantics::add_entries(colls0, from@, em, 0) == Ok::<
                    Seq<CollectionModel>,
                    DBError,
                >(c2),
                Err(e) => crate::semantics::add_entries(colls0, from@, em, 0) == Err::<
                    Seq<CollectionModel>,
                    DBError,
                >(e),
            },
            wh@.len() == old(wh)@.len(),
            forall|j: int|
                0 <= j < wh@.len() ==> (#[trigger] colls_model(wh@)[j]).name == colls0[j].name,
        decreases m@.len() - i,
    {
        let entry = &m[i];
        match &entry.1 {
            Item::Primitive(Primitive::Link(x)) => {
                proof {
                    assert(em[i as int] == (entry.0@, ItemModel::LinkTo(x@)));
                }
                match add_one_exec(wh, x, from, TrackPath::AtKey(entry.0.clone())) {
                    Ok(()) => {},
                    Err(e) => {
                        return Err(e);
                    },
                }
            },
            _ => {
                proof {
                    assert(!(em[i as int].1 is LinkTo));
                }
                return Err(DBError::InternalConsistency);
            },
        }
        i += 1;
    }
    Ok(())
}

/// (Re)insert the row of `link` with `item`, preserving its back-track index
/// across an overwrite.
pub fn upsert_exec(wh: &mut Vec<Collection>, link: &Link, item: &Item)
    ensures
        colls_model(final(wh)@) == crate::semantics::upsert_row(
            colls_model(old(wh)@),
            link@,
            item@,
        ),
{
    let ghost colls0 = colls_model(wh@);
    match coll_find(wh, link.get_prefix()) {
        None => {},
        Some(ci) => {
            let mut c = wh.remove(ci);
            let bt: Vec<(Link, TrackPath)> = match c.row_get(link) {
                Some(d) => d.dup().back_track,
                None => Vec::new(),
            };
            proof {
                if crate::assoc::assoc_get(colls0[ci as int].rows, link@) is None {
                    assert(crate::views::track_model(bt@) =~= Seq::<
                        (LinkModel, crate::model::PathModel),
                    >::empty());
                }
            }
            c.row_put(link.clone(), crate::collection::LinkData { item: item.dup(), back_track: bt });
            wh.insert(ci, c);
            proof {
                let after = colls_model(wh@);
                let expect = crate::semantics::upsert_row(colls0, link@, item@);
                assert forall|j: int| 0 <= j < after.len() implies after[j] == expect[j] by {
                    if j == ci {
                        assert(after[j] =~= expect[j]);
                    }
                }
                assert(after =~= expect);
            }
        },
    }
}

/// Commit one staged record: open the owning collection if needed, append the
/// record to its log, retract the references of any overwritten value, then
/// apply the write with its back-track maintenance.
pub fn commit_entry(wh: &mut Vec<Collection>, link: &Link, item: &Item) -> (r: Result<
    (),
    DBError,
>)
    ensures
        match crate::semantics::commit_one(colls_model(old(wh)@), link@, item@) {
            Ok(c2) => r is Ok && colls_model(final(wh)@) == c2,
            Err(e) => r == Err::<(), DBError>(e),
        },
{
    let ghost colls0 = colls_model(wh@);
    let ci: usize = match coll_find(wh, link.get_prefix()) {
        Some(i) => i,
        None => {
            wh.push(Collection::new(link.get_prefix().clone()));
            wh.len() - 1
        },
    };
    proof {
        assert(colls_model(wh@) =~= crate::semantics::ensure_coll(colls0, link@.prefix));
        if crate::model::coll_index_of(colls0, link@.prefix) == -1 {
            crate::model::lemma_coll_index_of(colls0, link@.prefix);
            assert forall|j: int| 0 <= j < ci implies (#[trigger] colls_model(wh@)[j]).name
                != link@.prefix by {
                assert(colls_model(wh@)[j] == colls0[j]);
            }
            crate::model::lemma_coll_index_unique(colls_model(wh@), link@.prefix, ci as int);
        }
    }
    let ghost colls1 = colls_model(wh@);
    proof {
        assert(ci as int == crate::model::coll_index_of(colls1, link@.prefix));
    }
    let mut c = wh.remove(ci);
    c.log_append(link.clone(), item.dup());
    wh.insert(ci, c);
    proof {
        let after = colls_model(wh@);
        let expect = colls1.update(
            ci as int,
            (CollectionModel { log: colls1[ci as int].log.push((link@, item@)), ..colls1[ci as int] }),
        );
        assert forall|j: int| 0 <= j < after.len() implies after[j] == expect[j] by {
            if j == ci {
                assert(after[j] =~= expect[j]);
            }
        }
        assert(after =~= expect);
    }
    let ghost colls2 = colls_model(wh@);
    let old_item: Option<Item> = {
        let cref = &wh[ci];
        match cref.row_get(link) {
            Some(d) => Some(d.item.dup()),
            None => None,
        }
    };
    match &old_item {
        Some(old_value) => {
            retract_item_exec(wh, link, old_value);
        },
        None => {},
    }
    let ghost colls3 = colls_model(wh@);
    match item {
        Item::Primitive(Primitive::DeletedPrimitive) => {
            let has = {
                let cref = &wh[ci];
                match cref.row_get(link) {
                    Some(_) => true,
                    None => false,
                }
            };
            if has {
                let mut c2 = wh.remove(ci);
                c2.row_remove(link);
                wh.insert(ci, c2);
                proof {
                    let after = colls_model(wh@);
                    let expect = colls3.update(
                        ci as int,
                        (CollectionModel {
                            rows: crate::assoc::assoc_remove(colls3[ci as int].rows, link@),
                            ..colls3[ci as int]
                        }),
                    );
                    assert forall|j: int| 0 <= j < after.len() implies after[j] == expect[j] by {
                        if j == ci {
                            assert(after[j] =~= expect[j]);
                        }
                    }
                    assert(after =~= expect);
                }
                Ok(())
            } else {
                Err(DBError::InternalConsistency)
            }
        },
        Item::Primitive(Primitive::Link(x)) => {
            match add_one_exec(wh, x, link, TrackPath::AtRoot) {
                Ok(()) => {
                    upsert_exec(wh, link, item);
                    Ok(())
                },
                Err(e) => Err(e),
            }
        },
        Item::Primitive(_) => {
            upsert_exec(wh, link, item);
            Ok(())
        },
        Item::Vector(v) => {
            match add_elems_exec(wh, link, v) {
                Ok(()) => {
                    upsert_exec(wh, link, item);
                    Ok(())
                },
                Err(e) => Err(e),
            }
        },
        Item::Mapping(m) => {
            match add_entries_exec(wh, link, m) {
                Ok(()) => {
                    upsert_exec(wh, link, item);
                    Ok(())
                },
                Err(e) => Err(e),
            }
        },
    }
}


/// A fresh transaction buffer whose identifiers start at `next_id`.
pub open spec fn fresh_buffer(next_id: u64) -> crate::model::BufferModel {
    crate::model::BufferModel {
        entries: Seq::empty(),
        dropped: Seq::empty(),
        changed: false,
        next_id: next_id,
    }
}

/// Ghost state of a query step mid-execution: the permitted operations, the
/// working set, the staging buffer, the recorded projection and the response
/// formed so far.
#[verifier::ext_equal]
pub struct StepState {
    pub permitted: Seq<crate::ops::QueryOperation>,
    pub filter: Seq<LinkModel>,
    pub buf: crate::model::BufferModel,
    pub proj: Option<Seq<(ItemModel, ItemModel)>>,
    pub response: crate::response::ResponseModel,
}

/// The model of a step-scoped projection slot.
pub open spec fn proj_model(p: Option<ProjectQuery>) -> Option<Seq<(ItemModel, ItemModel)>> {
    match p {
        Some(q) => Some(q@),
        None => None,
    }
}

/// The state a query step starts from.
pub open spec fn init_step_state(buf: crate::model::BufferModel) -> StepState {
    StepState {
        permitted: crate::ops::initial_ops_spec(),
        filter: Seq::empty(),
        buf: buf,
        proj: None,
        response: crate::response::ResponseModel {
            data: ItemModel::Null,
            meta: crate::response::Meta::FindMeta { count: 0 },
            status: crate::response::QueryStatus::Ready,
        },
    }
}

/// The set operators a later delete is translated into: one root-targeted
/// write of the tombstone.
pub open spec fn tombstone_operators() -> Seq<Seq<(crate::query::SetTargetModel, ItemModel)>> {
    seq![seq![(crate::query::SetTargetModel::RootT, ItemModel::Deleted)]]
}

/// What executing one query item at position `i` of a step does: the item's
/// operation must be permitted; its effect replaces the permitted set with
/// its successor set, transforms the working set, the buffer, the projection
/// and the response, or fails with the processor's error.
pub open spec fn item_effect(
    colls: Seq<CollectionModel>,
    name: Seq<char>,
    st: StepState,
    q: crate::query::QueryItem,
    i: int,
) -> Result<StepState, DBError> {
    let op = crate::query::op_of(q);
    if !st.permitted.contains(op) {
        Err(DBError::Unavailable(op))
    } else {
        let succ = crate::ops::successors_spec(op);
        match q {
            crate::query::QueryItem::Insert(o) => match insert_many_spec(st.buf, name, o@, 0) {
                Err(e) => Err(e),
                Ok((b2, links)) => Ok(
                    StepState {
                        permitted: succ,
                        buf: b2,
                        response: crate::response::ResponseModel {
                            data: ItemModel::Array(links),
                            meta: crate::response::Meta::FindMeta {
                                count: links.len() as usize,
                            },
                            status: crate::response::QueryStatus::Ready,
                        },
                        ..st
                    },
                ),
            },
            crate::query::QueryItem::Find(o) => {
                let f2 = find_result(colls, st.buf.entries, name, o@, st.filter, i == 0);
                Ok(
                    StepState {
                        permitted: succ,
                        filter: f2,
                        response: crate::response::ResponseModel {
                            data: ItemModel::Null,
                            meta: crate::response::Meta::FindMeta { count: f2.len() as usize },
                            status: crate::response::QueryStatus::NotFetched,
                        },
                        ..st
                    },
                )
            },
            crate::query::QueryItem::Get(o) => {
                let f2 = st.filter + o@;
                Ok(
                    StepState {
                        permitted: succ,
                        filter: f2,
                        response: crate::response::ResponseModel {
                            data: ItemModel::Null,
                            meta: crate::response::Meta::FindMeta { count: f2.len() as usize },
                            status: crate::response::QueryStatus::NotFetched,
                        },
                        ..st
                    },
                )
            },
            crate::query::QueryItem::Update(o) => match crate::query::update_ids_spec(
                colls,
                st.buf,
                st.filter,
                o@,
                0,
            ) {
                Err(e) => Err(e),
                Ok(b2) => Ok(
                    StepState {
                        permitted: succ,
                        buf: b2,
                        response: crate::response::ResponseModel {
                            data: ItemModel::Null,
                            meta: crate::response::Meta::FindMeta {
                                count: st.filter.len() as usize,
                            },
                            status: crate::response::QueryStatus::NotFetched,
                        },
                        ..st
                    },
                ),
            },
            crate::query::QueryItem::Sort(o) => {
                let f2 = sort_result_spec(colls, st.buf.entries, st.filter, o.key@, o.ascending);
                Ok(
                    StepState {
                        permitted: succ,
                        filter: f2,
                        response: crate::response::ResponseModel {
                            data: ItemModel::Null,
                            meta: crate::response::Meta::FindMeta { count: f2.len() as usize },
                            status: crate::response::QueryStatus::NotFetched,
                        },
                        ..st
                    },
                )
            },
            crate::query::QueryItem::Delete(_) => if i == 0 {
                Ok(
                    StepState {
                        permitted: succ,
                        buf: crate::model::BufferModel {
                            dropped: st.buf.dropped.push(name),
                            ..st.buf
                        },
                        response: crate::response::ResponseModel {
                            data: ItemModel::Null,
                            meta: crate::response::Meta::DeleteMeta { count: 0 },
                            status: crate::response::QueryStatus::Ready,
                        },
                        ..st
                    },
                )
            } else {
                match crate::query::update_ids_spec(
                    colls,
                    st.buf,
                    st.filter,
                    tombstone_operators(),
                    0,
                ) {
                    Err(e) => Err(e),
                    Ok(b2) => Ok(
                        StepState {
                            permitted: succ,
                            buf: b2,
                            response: crate::response::ResponseModel {
                                data: ItemModel::Null,
                                meta: crate::response::Meta::DeleteMeta {
                                    count: st.filter.len() as usize,
                                },
                                status: crate::response::QueryStatus::NotFetched,
                            },
                            ..st
                        },
                    ),
                }
            },
            crate::query::QueryItem::Limit(o) => match limit_spec(st.filter, o@) {
                Err(e) => Err(e),
                Ok(f2) => Ok(
                    StepState {
                        permitted: succ,
                        filter: f2,
                        response: crate::response::ResponseModel {
                            data: ItemModel::Null,
                            meta: crate::response::Meta::FindMeta { count: f2.len() as usize },
                            status: crate::response::QueryStatus::NotFetched,
                        },
                        ..st
                    },
                ),
            },
            crate::query::QueryItem::Offset(o) => match offset_spec(st.filter, o@) {
                Err(e) => Err(e),
                Ok(f2) => Ok(
                    StepState {
                        permitted: succ,
                        filter: f2,
                        response: crate::response::ResponseModel {
                            data: ItemModel::Null,
                            meta: crate::response::Meta::FindMeta { count: f2.len() as usize },
                            status: crate::response::QueryStatus::NotFetched,
                        },
                        ..st
                    },
                ),
            },
            crate::query::QueryItem::Project(o) => Ok(
                StepState {
                    permitted: succ,
                    proj: Some(o@),
                    response: crate::response::ResponseModel {
                        data: ItemModel::Null,
                        meta: crate::response::Meta::FindMeta {
                            count: st.filter.len() as usize,
                        },
                        status: crate::response::QueryStatus::NotFetched,
                    },
                    ..st
                },
            ),
            crate::query::QueryItem::Index(_) => Ok(
                StepState {
                    permitted: succ,
                    response: crate::response::ResponseModel {
                        data: ItemModel::Null,
                        meta: crate::response::Meta::FindMeta {
                            count: st.filter.len() as usize,
                        },
                        status: crate::response::QueryStatus::NotFetched,
                    },
                    ..st
                },
            ),
        }
    }
}

/// Execute the items of a step from index `i` on.
pub open spec fn step_fold(
    colls: Seq<CollectionModel>,
    name: Seq<char>,
    items: Seq<crate::query::QueryItem>,
    st: StepState,
    i: int,
) -> Result<StepState, DBError>
    decreases items.len() - i,
{
    if i < 0 || i >= items.len() {
        Ok(st)
    } else {
        match item_effect(colls, name, st, items[i], i) {
            Err(e) => Err(e),
            Ok(st2) => step_fold(colls, name, items, st2, i + 1),
        }
    }
}

/// What a whole query step yields: the items executed in order from the
/// initial permitted set, then — if the response is still unresolved — the
/// end-of-step fetch of the matched links through the recorded projection.
pub open spec fn step_spec(
    colls: Seq<CollectionModel>,
    name: Seq<char>,
    items: Seq<crate::query::QueryItem>,
    buf: crate::model::BufferModel,
) -> Result<(crate::model::BufferModel, crate::response::ResponseModel), DBError> {
    match step_fold(colls, name, items, init_step_state(buf), 0) {
        Err(e) => Err(e),
        Ok(st) => match st.response.status {
            crate::response::QueryStatus::NotFetched => match fetch_ids_spec(
                colls,
                st.buf.entries,
                st.filter,
                st.proj,
                0,
            ) {
                Err(e) => Err(e),
                Ok(rows) => Ok(
                    (
                        st.buf,
                        crate::response::ResponseModel {
                            data: ItemModel::Array(rows),
                            meta: st.response.meta,
                            status: crate::response::QueryStatus::Ready,
                        },
                    ),
                ),
            },
            crate::response::QueryStatus::Ready => Ok((st.buf, st.response)),
        },
    }
}

/// What a whole transaction's steps yield (from step `i` on): each step runs
/// against the buffer the previous ones staged, accumulating one response per
/// step in order.
pub open spec fn steps_fold(
    colls: Seq<CollectionModel>,
    steps: Seq<crate::query::QueryStep>,
    buf: crate::model::BufferModel,
    i: int,
) -> Result<(crate::model::BufferModel, Seq<crate::response::ResponseModel>), DBError>
    decreases steps.len() - i,
{
    if i < 0 || i >= steps.len() {
        Ok((buf, Seq::empty()))
    } else {
        match step_spec(colls, steps[i].collection_name@, steps[i].items@, buf) {
            Err(e) => Err(e),
            Ok((b2, resp)) => match steps_fold(colls, steps, b2, i + 1) {
                Err(e) => Err(e),
                Ok((b3, rest)) => Ok((b3, seq![resp] + rest)),
            },
        }
    }
}


/// Model of persisted backing files: one (collection name, records) pair per
/// file, records in append order.
pub open spec fn files_model(files: Seq<(String, Vec<(Link, Item)>)>) -> Seq<
    (Seq<char>, Seq<(LinkModel, ItemModel)>),
> {
    Seq::new(
        files.len(),
        |i: int| (files[i].0@, crate::views::link_entries_model(files[i].1@)),
    )
}

/// Replay the files from index `i` on: open each collection, then commit its
/// records in order — the compacted view on top of the latest record per
/// link, back-track bookkeeping included.
pub open spec fn restore_fold(
    colls: Seq<CollectionModel>,
    files: Seq<(Seq<char>, Seq<(LinkModel, ItemModel)>)>,
    i: int,
) -> Result<Seq<CollectionModel>, DBError>
    decreases files.len() - i,
{
    if i < 0 || i >= files.len() {
        Ok(colls)
    } else {
        let colls1 = crate::semantics::ensure_coll(colls, files[i].0);
        match crate::semantics::commit_entries(colls1, files[i].1, 0) {
            Err(e) => Err(e),
            Ok(c2) => restore_fold(c2, files, i + 1),
        }
    }
}

/// The smallest identifier fresh above the records from index `j` on, folded
/// into `acc`; a record at the top of the identifier space is an error.
pub open spec fn records_floor(
    recs: Seq<(LinkModel, ItemModel)>,
    j: int,
    acc: u64,
) -> Result<u64, DBError>
    decreases recs.len() - j,
{
    if j < 0 || j >= recs.len() {
        Ok(acc)
    } else {
        let id = recs[j].0.id;
        if id == u64::MAX {
            Err(DBError::InternalConsistency)
        } else {
            records_floor(
                recs,
                j + 1,
                if id + 1 > acc {
                    (id + 1) as u64
                } else {
                    acc
                },
            )
        }
    }
}

/// The smallest identifier fresh above every replayed record (from file `i`
/// on), folded into `acc`.
pub open spec fn files_floor(
    files: Seq<(Seq<char>, Seq<(LinkModel, ItemModel)>)>,
    i: int,
    acc: u64,
) -> Result<u64, DBError>
    decreases files.len() - i,
{
    if i < 0 || i >= files.len() {
        Ok(acc)
    } else {
        match records_floor(files[i].1, 0, acc) {
            Err(e) => Err(e),
            Ok(a2) => files_floor(files, i + 1, a2),
        }
    }
}

} // verus!
