//! The mathematical semantics of the store: link resolution, depth-bounded
//! dereferencing, path navigation, flattening on insert, condition matching,
//! updates, and the commit with its back-track maintenance.  Every executable
//! function of the engine is specified against these definitions.

use vstd::prelude::*;

use crate::assoc::{assoc_get, assoc_put, assoc_remove};
use crate::errors::DBError;
use crate::model::{
    coll_index_of, colls_get, BufferModel, CollectionModel, ItemModel, LinkModel, PathModel,
    PathSegModel, RowModel,
};
use crate::FETCH_DEPTH_LIMIT;

verus! {

/// The name of the reserved collection holding sub-parts of composite items.
pub open spec fn internal_name() -> Seq<char> {
    "internal"@
}

// ---------------------------------------------------------------------------
// Link resolution
// ---------------------------------------------------------------------------

/// Outcome of resolving a link against the insert buffer (which shadows
/// committed data) and then the owning collection.
pub enum LinkLookup {
    Hit(ItemModel),
    Absent,
    NoCollection,
}

pub open spec fn link_lookup(
    colls: Seq<CollectionModel>,
    buf: Seq<(LinkModel, ItemModel)>,
    l: LinkModel,
) -> LinkLookup {
    match assoc_get(buf, l) {
        Some(v) => LinkLookup::Hit(v),
        None => match colls_get(colls, l.prefix) {
            Some(c) => match assoc_get(c.rows, l) {
                Some(row) => LinkLookup::Hit(row.item),
                None => LinkLookup::Absent,
            },
            None => LinkLookup::NoCollection,
        },
    }
}

/// Resolution used where a value is required (updates, navigation): the
/// buffer is consulted when given; a link absent from both buffer and
/// collection is an unresolved-reference error here, not a `Null`.
pub open spec fn value_lookup(
    colls: Seq<CollectionModel>,
    buf: Option<Seq<(LinkModel, ItemModel)>>,
    l: LinkModel,
) -> Result<ItemModel, DBError> {
    let staged: Option<ItemModel> = match buf {
        Some(entries) => assoc_get(entries, l),
        None => None,
    };
    match staged {
        Some(v) => Ok(v),
        None => match colls_get(colls, l.prefix) {
            Some(c) => match assoc_get(c.rows, l) {
                Some(row) => Ok(row.item),
                None => Err(DBError::UnresolvedReference),
            },
            None => Err(DBError::UnresolvedReference),
        },
    }
}

// ---------------------------------------------------------------------------
// Depth-bounded dereferencing
// ---------------------------------------------------------------------------

/// Remaining budget of a fetch whose counter is `counter`.
pub open spec fn fetch_fuel(counter: u64) -> nat {
    if counter <= FETCH_DEPTH_LIMIT {
        (FETCH_DEPTH_LIMIT - counter + 1) as nat
    } else {
        0
    }
}

/// Full dereference of `item`: links are resolved recursively (the buffer
/// shadowing committed data, an absent link read as `Null`, a missing
/// collection an internal error), containers are rebuilt element by element.
/// The counter grows on every hop and every container descent; reaching the
/// bound is a recursion-limit error.
pub open spec fn fetch_spec(
    colls: Seq<CollectionModel>,
    buf: Seq<(LinkModel, ItemModel)>,
    item: ItemModel,
    counter: u64,
) -> Result<ItemModel, DBError>
    decreases fetch_fuel(counter), 0nat,
{
    if counter >= FETCH_DEPTH_LIMIT {
        Err(DBError::RecursionLimit)
    } else {
        let c = (counter + 1) as u64;
        match item {
            ItemModel::LinkTo(l) => match link_lookup(colls, buf, l) {
                LinkLookup::Hit(v) => fetch_spec(colls, buf, v, c),
                LinkLookup::Absent => Ok(ItemModel::Null),
                LinkLookup::NoCollection => Err(DBError::InternalConsistency),
            },
            ItemModel::Array(s) => match fetch_elems_spec(colls, buf, s, c, 0) {
                Ok(vs) => Ok(ItemModel::Array(vs)),
                Err(e) => Err(e),
            },
            ItemModel::Table(es) => match fetch_entries_spec(colls, buf, es, c, 0) {
                Ok(vs) => Ok(ItemModel::Table(vs)),
                Err(e) => Err(e),
            },
            _ => Ok(item),
        }
    }
}

/// Elementwise dereference of an array's elements from index `i` on.
pub open spec fn fetch_elems_spec(
    colls: Seq<CollectionModel>,
    buf: Seq<(LinkModel, ItemModel)>,
    s: Seq<ItemModel>,
    counter: u64,
    i: int,
) -> Result<Seq<ItemModel>, DBError>
    decreases fetch_fuel(counter), s.len() - i + 1,
{
    if i < 0 || i >= s.len() {
        Ok(Seq::empty())
    } else {
        match fetch_spec(colls, buf, s[i], counter) {
            Err(e) => Err(e),
            Ok(v) => match fetch_elems_spec(colls, buf, s, counter, i + 1) {
                Err(e) => Err(e),
                Ok(rest) => Ok(seq![v] + rest),
            },
        }
    }
}

/// Entrywise dereference of a table's entries from index `i` on.
pub open spec fn fetch_entries_spec(
    colls: Seq<CollectionModel>,
    buf: Seq<(LinkModel, ItemModel)>,
    es: Seq<(Seq<char>, ItemModel)>,
    counter: u64,
    i: int,
) -> Result<Seq<(Seq<char>, ItemModel)>, DBError>
    decreases fetch_fuel(counter), es.len() - i + 1,
{
    if i < 0 || i >= es.len() {
        Ok(Seq::empty())
    } else {
        match fetch_spec(colls, buf, es[i].1, counter) {
            Err(e) => Err(e),
            Ok(v) => match fetch_entries_spec(colls, buf, es, counter, i + 1) {
                Err(e) => Err(e),
                Ok(rest) => Ok(seq![(es[i].0, v)] + rest),
            },
        }
    }
}

/// Dereference starting from a link: the buffer shadows committed data, an
/// unknown link reads as `Null`, a missing collection is an internal error.
pub open spec fn get_by_link_spec(
    colls: Seq<CollectionModel>,
    buf: Seq<(LinkModel, ItemModel)>,
    l: LinkModel,
    counter: u64,
) -> Result<ItemModel, DBError> {
    match link_lookup(colls, buf, l) {
        LinkLookup::Hit(v) => fetch_spec(colls, buf, v, counter),
        LinkLookup::Absent => Ok(ItemModel::Null),
        LinkLookup::NoCollection => Err(DBError::InternalConsistency),
    }
}

/// Follow a chain of plain link-to-link indirections to the first non-link
/// value, together with the link that named it.
pub open spec fn skip_links_spec(
    colls: Seq<CollectionModel>,
    buf: Option<Seq<(LinkModel, ItemModel)>>,
    l: LinkModel,
    depth: u64,
) -> Result<(LinkModel, ItemModel), DBError>
    decreases fetch_fuel(depth),
{
    if depth >= FETCH_DEPTH_LIMIT {
        Err(DBError::RecursionLimit)
    } else {
        match value_lookup(colls, buf, l) {
            Err(e) => Err(e),
            Ok(v) => match v {
                ItemModel::LinkTo(l2) => skip_links_spec(colls, buf, l2, (depth + 1) as u64),
                _ => Ok((l, v)),
            },
        }
    }
}

// ---------------------------------------------------------------------------
// Path navigation
// ---------------------------------------------------------------------------

/// Walk `segs` from `item`, one segment at a time: a table key or an array
/// index leads to a stored link, which is followed through link chains to the
/// next value.  A missing key or index yields `None`, as does reaching a
/// non-container while segments remain; a non-link inside a stored container
/// breaks the flattening invariant and is an internal error.
pub open spec fn nav_spec(
    colls: Seq<CollectionModel>,
    buf: Option<Seq<(LinkModel, ItemModel)>>,
    item: ItemModel,
    segs: Seq<PathSegModel>,
    i: int,
) -> Result<Option<ItemModel>, DBError>
    decreases segs.len() - i,
{
    if i < 0 || i >= segs.len() {
        Ok(Some(item))
    } else {
        match item {
            ItemModel::Table(es) => match segs[i] {
                PathSegModel::Key(k) => match assoc_get(es, k) {
                    Some(stored) => match stored {
                        ItemModel::LinkTo(l) => match skip_links_spec(colls, buf, l, 0) {
                            Err(e) => Err(e),
                            Ok(hit) => nav_spec(colls, buf, hit.1, segs, i + 1),
                        },
                        _ => Err(DBError::InternalConsistency),
                    },
                    None => Ok(None),
                },
                PathSegModel::Index(_) => Ok(None),
            },
            ItemModel::Array(s) => match segs[i] {
                PathSegModel::Index(ix) => if ix < s.len() {
                    match s[ix as int] {
                        ItemModel::LinkTo(l) => match skip_links_spec(colls, buf, l, 0) {
                            Err(e) => Err(e),
                            Ok(hit) => nav_spec(colls, buf, hit.1, segs, i + 1),
                        },
                        _ => Err(DBError::InternalConsistency),
                    }
                } else {
                    Ok(None)
                },
                PathSegModel::Key(_) => Ok(None),
            },
            _ => Ok(None),
        }
    }
}

/// Model of a navigation result that can serve writes: the immediate
/// container's link and current value, the traversed segment, and the value
/// found there (`None` for a missing table key).
pub struct FoundSubModel {
    pub container_id: LinkModel,
    pub container_value: ItemModel,
    pub key: PathSegModel,
    pub value: Option<ItemModel>,
}

/// The walk of `find_sub_spec`, carrying the last traversed link, the current
/// value and the record of the last hop.
pub open spec fn find_sub_walk_spec(
    colls: Seq<CollectionModel>,
    buf: Seq<(LinkModel, ItemModel)>,
    item: ItemModel,
    last: LinkModel,
    sub: Option<FoundSubModel>,
    segs: Seq<PathSegModel>,
    i: int,
) -> Result<Option<FoundSubModel>, DBError>
    decreases segs.len() - i,
{
    if i < 0 || i >= segs.len() {
        Ok(sub)
    } else {
        match item {
            ItemModel::Table(es) => match segs[i] {
                PathSegModel::Key(k) => match assoc_get(es, k) {
                    Some(stored) => match stored {
                        ItemModel::LinkTo(l) => match skip_links_spec(colls, Some(buf), l, 0) {
                            Err(e) => Err(e),
                            Ok(hit) => find_sub_walk_spec(
                                colls,
                                buf,
                                hit.1,
                                hit.0,
                                Some(
                                    FoundSubModel {
                                        container_id: last,
                                        container_value: item,
                                        key: segs[i],
                                        value: Some(hit.1),
                                    },
                                ),
                                segs,
                                i + 1,
                            ),
                        },
                        _ => Err(DBError::InternalConsistency),
                    },
                    None => find_sub_walk_spec(
                        colls,
                        buf,
                        ItemModel::Null,
                        last,
                        Some(
                            FoundSubModel {
                                container_id: last,
                                container_value: item,
                                key: segs[i],
                                value: None,
                            },
                        ),
                        segs,
                        i + 1,
                    ),
                },
                PathSegModel::Index(_) => Ok(None),
            },
            ItemModel::Array(s) => match segs[i] {
                PathSegModel::Index(ix) => if ix < s.len() {
                    match s[ix as int] {
                        ItemModel::LinkTo(l) => match value_lookup(colls, Some(buf), l) {
                            Err(e) => Err(e),
                            Ok(v) => find_sub_walk_spec(
                                colls,
                                buf,
                                v,
                                l,
                                Some(
                                    FoundSubModel {
                                        container_id: last,
                                        container_value: item,
                                        key: segs[i],
                                        value: Some(v),
                                    },
                                ),
                                segs,
                                i + 1,
                            ),
                        },
                        _ => Err(DBError::InternalConsistency),
                    }
                } else {
                    Ok(None)
                },
                PathSegModel::Key(_) => Ok(None),
            },
            _ => Ok(None),
        }
    }
}

/// Navigate `segs` from the item stored under `id`, recording for the last
/// hop the containing link, the container's value and the traversed segment.
pub open spec fn find_sub_spec(
    colls: Seq<CollectionModel>,
    buf: Seq<(LinkModel, ItemModel)>,
    id: LinkModel,
    segs: Seq<PathSegModel>,
) -> Result<Option<FoundSubModel>, DBError> {
    match value_lookup(colls, Some(buf), id) {
        Err(e) => Err(e),
        Ok(item) => find_sub_walk_spec(colls, buf, item, id, None, segs, 0),
    }
}

// ---------------------------------------------------------------------------
// Flattening on insert
// ---------------------------------------------------------------------------

/// The buffer after binding `l` to `v` and marking it changed.
pub open spec fn buf_put(buf: BufferModel, l: LinkModel, v: ItemModel) -> BufferModel {
    BufferModel { entries: assoc_put(buf.entries, l, v), changed: true, ..buf }
}

/// Stage `item` under the existing link `l`: scalars and links as they are; a
/// container is decomposed by staging each element under the internal
/// collection and assembling a container of the resulting links.
pub open spec fn stage_at_spec(buf: BufferModel, l: LinkModel, item: ItemModel) -> Result<
    BufferModel,
    DBError,
>
    decreases item, 0nat, 0nat,
{
    match item {
        ItemModel::Array(s) => match stage_elems_spec(buf, s, 0) {
            Err(e) => Err(e),
            Ok((b2, links)) => Ok(buf_put(b2, l, ItemModel::Array(links))),
        },
        ItemModel::Table(es) => match stage_entries_spec(buf, es, 0) {
            Err(e) => Err(e),
            Ok((b2, links)) => Ok(buf_put(b2, l, ItemModel::Table(links))),
        },
        _ => Ok(buf_put(buf, l, item)),
    }
}

/// Stage each element from index `i` on under the internal collection,
/// returning the links standing in for them.
pub open spec fn stage_elems_spec(buf: BufferModel, s: Seq<ItemModel>, i: int) -> Result<
    (BufferModel, Seq<ItemModel>),
    DBError,
>
    decreases s, s.len() - i, 2nat,
{
    if i < 0 || i >= s.len() {
        Ok((buf, Seq::empty()))
    } else {
        match stage_spec(buf, internal_name(), s[i]) {
            Err(e) => Err(e),
            Ok((b2, li)) => match stage_elems_spec(b2, s, i + 1) {
                Err(e) => Err(e),
                Ok((b3, rest)) => Ok((b3, seq![li] + rest)),
            },
        }
    }
}

/// Stage each entry value from index `i` on under the internal collection,
/// returning the entries with values replaced by links.
pub open spec fn stage_entries_spec(
    buf: BufferModel,
    es: Seq<(Seq<char>, ItemModel)>,
    i: int,
) -> Result<(BufferModel, Seq<(Seq<char>, ItemModel)>), DBError>
    decreases es, es.len() - i, 2nat,
{
    if i < 0 || i >= es.len() {
        Ok((buf, Seq::empty()))
    } else {
        match stage_spec(buf, internal_name(), es[i].1) {
            Err(e) => Err(e),
            Ok((b2, li)) => match stage_entries_spec(b2, es, i + 1) {
                Err(e) => Err(e),
                Ok((b3, rest)) => Ok((b3, seq![(es[i].0, li)] + rest)),
            },
        }
    }
}

/// Insert `item` into `name`: mint a fresh link, stage the (flattened) value
/// under it, and return the link standing for the value.  A tombstone cannot
/// be inserted; exhausting the identifier space is an internal error.
pub open spec fn stage_spec(buf: BufferModel, name: Seq<char>, item: ItemModel) -> Result<
    (BufferModel, ItemModel),
    DBError,
>
    decreases item, 0nat, 1nat,
{
    if item is Deleted {
        Err(DBError::MalformedQuery)
    } else if buf.next_id == u64::MAX {
        Err(DBError::InternalConsistency)
    } else {
        let l = LinkModel { prefix: name, id: buf.next_id };
        let b1 = BufferModel { next_id: (buf.next_id + 1) as u64, ..buf };
        match stage_at_spec(b1, l, item) {
            Err(e) => Err(e),
            Ok(b2) => Ok((b2, ItemModel::LinkTo(l))),
        }
    }
}

// ---------------------------------------------------------------------------
// Commit and back-track maintenance
// ---------------------------------------------------------------------------

/// Retract from the back-track index of `x` the entry keyed by `from`.  A
/// missing collection or row is tolerated: the reference may point at a
/// dropped collection or an absent row.
pub open spec fn retract_one(
    colls: Seq<CollectionModel>,
    from: LinkModel,
    x: LinkModel,
) -> Seq<CollectionModel> {
    let ci = coll_index_of(colls, x.prefix);
    if ci == -1 {
        colls
    } else {
        match assoc_get(colls[ci].rows, x) {
            None => colls,
            Some(row) => colls.update(
                ci,
                CollectionModel {
                    rows: assoc_put(
                        colls[ci].rows,
                        x,
                        RowModel {
                            item: row.item,
                            back_track: assoc_remove(row.back_track, from),
                        },
                    ),
                    ..colls[ci]
                },
            ),
        }
    }
}

/// Retract `from` from every link an array's elements reference, from `i` on.
pub open spec fn retract_elems(
    colls: Seq<CollectionModel>,
    from: LinkModel,
    s: Seq<ItemModel>,
    i: int,
) -> Seq<CollectionModel>
    decreases s.len() - i,
{
    if i < 0 || i >= s.len() {
        colls
    } else {
        let c2 = match s[i] {
            ItemModel::LinkTo(x) => retract_one(colls, from, x),
            _ => colls,
        };
        retract_elems(c2, from, s, i + 1)
    }
}

/// Retract `from` from every link a table's entries reference, from `i` on.
pub open spec fn retract_entries(
    colls: Seq<CollectionModel>,
    from: LinkModel,
    es: Seq<(Seq<char>, ItemModel)>,
    i: int,
) -> Seq<CollectionModel>
    decreases es.len() - i,
{
    if i < 0 || i >= es.len() {
        colls
    } else {
        let c2 = match es[i].1 {
            ItemModel::LinkTo(x) => retract_one(colls, from, x),
            _ => colls,
        };
        retract_entries(c2, from, es, i + 1)
    }
}

/// Retract `from` from the back-track index of every link `item` references.
pub open spec fn retract_item(
    colls: Seq<CollectionModel>,
    from: LinkModel,
    item: ItemModel,
) -> Seq<CollectionModel> {
    match item {
        ItemModel::LinkTo(x) => retract_one(colls, from, x),
        ItemModel::Array(s) => retract_elems(colls, from, s, 0),
        ItemModel::Table(es) => retract_entries(colls, from, es, 0),
        _ => colls,
    }
}

/// Record in the back-track index of `x` that `from` references it at `path`.
/// The target row must exist: a missing entry is an internal consistency
/// error.
pub open spec fn add_one(
    colls: Seq<CollectionModel>,
    x: LinkModel,
    from: LinkModel,
    path: PathModel,
) -> Result<Seq<CollectionModel>, DBError> {
    let ci = coll_index_of(colls, x.prefix);
    if ci == -1 {
        Err(DBError::InternalConsistency)
    } else {
        match assoc_get(colls[ci].rows, x) {
            None => Err(DBError::InternalConsistency),
            Some(row) => Ok(
                colls.update(
                    ci,
                    CollectionModel {
                        rows: assoc_put(
                            colls[ci].rows,
                            x,
                            RowModel {
                                item: row.item,
                                back_track: assoc_put(row.back_track, from, path),
                            },
                        ),
                        ..colls[ci]
                    },
                ),
            ),
        }
    }
}

/// Record `from` in every element's target, from `i` on: every element of a
/// committed array must be a link.
pub open spec fn add_elems(
    colls: Seq<CollectionModel>,
    from: LinkModel,
    s: Seq<ItemModel>,
    i: int,
) -> Result<Seq<CollectionModel>, DBError>
    decreases s.len() - i,
{
    if i < 0 || i >= s.len() {
        Ok(colls)
    } else {
        match s[i] {
            ItemModel::LinkTo(x) => match add_one(colls, x, from, PathModel::AtIndex(i as usize)) {
                Err(e) => Err(e),
                Ok(c2) => add_elems(c2, from, s, i + 1),
            },
            _ => Err(DBError::InternalConsistency),
        }
    }
}

/// Record `from` in every entry value's target, from `i` on: every entry
/// value of a committed table must be a link.
pub open spec fn add_entries(
    colls: Seq<CollectionModel>,
    from: LinkModel,
    es: Seq<(Seq<char>, ItemModel)>,
    i: int,
) -> Result<Seq<CollectionModel>, DBError>
    decreases es.len() - i,
{
    if i < 0 || i >= es.len() {
        Ok(colls)
    } else {
        match es[i].1 {
            ItemModel::LinkTo(x) => match add_one(colls, x, from, PathModel::AtKey(es[i].0)) {
                Err(e) => Err(e),
                Ok(c2) => add_entries(c2, from, es, i + 1),
            },
            _ => Err(DBError::InternalConsistency),
        }
    }
}

/// The collections with one named `name` present (created empty when new).
pub open spec fn ensure_coll(colls: Seq<CollectionModel>, name: Seq<char>) -> Seq<
    CollectionModel,
> {
    if coll_index_of(colls, name) == -1 {
        colls.push(CollectionModel { name: name, log: Seq::empty(), rows: Seq::empty() })
    } else {
        colls
    }
}

/// (Re)insert the row of `l` with `item`, preserving its back-track index
/// across an overwrite.  The owning collection must exist.
pub open spec fn upsert_row(colls: Seq<CollectionModel>, l: LinkModel, item: ItemModel) -> Seq<
    CollectionModel,
> {
    let ci = coll_index_of(colls, l.prefix);
    if ci == -1 {
        colls
    } else {
        let bt = match assoc_get(colls[ci].rows, l) {
            Some(row) => row.back_track,
            None => Seq::empty(),
        };
        colls.update(
            ci,
            CollectionModel {
                rows: assoc_put(colls[ci].rows, l, RowModel { item: item, back_track: bt }),
                ..colls[ci]
            },
        )
    }
}

/// Commit one staged record: open the owning collection if needed, append
/// the record to its log, retract the references of any overwritten value,
/// then apply the write.  A tombstone purges the row (it must exist); a
/// container or bare link adds a back-track entry to every link it references
/// (each must have a row); any other scalar is simply (re)inserted.
pub open spec fn commit_one(colls: Seq<CollectionModel>, l: LinkModel, v: ItemModel) -> Result<
    Seq<CollectionModel>,
    DBError,
> {
    let colls1 = ensure_coll(colls, l.prefix);
    let ci = coll_index_of(colls1, l.prefix);
    let colls2 = colls1.update(
        ci,
        CollectionModel { log: colls1[ci].log.push((l, v)), ..colls1[ci] },
    );
    let colls3 = match assoc_get(colls2[ci].rows, l) {
        Some(row) => retract_item(colls2, l, row.item),
        None => colls2,
    };
    match v {
        ItemModel::Deleted => {
            if assoc_get(colls3[ci].rows, l) is Some {
                Ok(
                    colls3.update(
                        ci,
                        CollectionModel {
                            rows: assoc_remove(colls3[ci].rows, l),
                            ..colls3[ci]
                        },
                    ),
                )
            } else {
                Err(DBError::InternalConsistency)
            }
        },
        ItemModel::Array(s) => match add_elems(colls3, l, s, 0) {
            Err(e) => Err(e),
            Ok(c4) => Ok(upsert_row(c4, l, v)),
        },
        ItemModel::Table(es) => match add_entries(colls3, l, es, 0) {
            Err(e) => Err(e),
            Ok(c4) => Ok(upsert_row(c4, l, v)),
        },
        ItemModel::LinkTo(x) => match add_one(colls3, x, l, PathModel::AtRoot) {
            Err(e) => Err(e),
            Ok(c4) => Ok(upsert_row(c4, l, v)),
        },
        _ => Ok(upsert_row(colls3, l, v)),
    }
}

/// Commit the staged records from index `i` on, in staging order.
pub open spec fn commit_entries(
    colls: Seq<CollectionModel>,
    entries: Seq<(LinkModel, ItemModel)>,
    i: int,
) -> Result<Seq<CollectionModel>, DBError>
    decreases entries.len() - i,
{
    if i < 0 || i >= entries.len() {
        Ok(colls)
    } else {
        match commit_one(colls, entries[i].0, entries[i].1) {
            Err(e) => Err(e),
            Ok(c2) => commit_entries(c2, entries, i + 1),
        }
    }
}

/// The collections from index `i` on that survive the drops.
pub open spec fn surviving(
    colls: Seq<CollectionModel>,
    dropped: Seq<Seq<char>>,
    i: int,
) -> Seq<CollectionModel>
    decreases colls.len() - i,
{
    if i < 0 || i >= colls.len() {
        Seq::empty()
    } else {
        (if dropped.contains(colls[i].name) {
            Seq::empty()
        } else {
            seq![colls[i]]
        }) + surviving(colls, dropped, i + 1)
    }
}

/// The collections surviving the drops of a transaction.
pub open spec fn drop_names(colls: Seq<CollectionModel>, dropped: Seq<Seq<char>>) -> Seq<
    CollectionModel,
> {
    surviving(colls, dropped, 0)
}

/// The whole commit: drops first, then — only if the buffer reports changes —
/// every staged record in order.
pub open spec fn commit_spec(colls: Seq<CollectionModel>, buf: BufferModel) -> Result<
    Seq<CollectionModel>,
    DBError,
> {
    let colls1 = drop_names(colls, buf.dropped);
    if buf.changed {
        commit_entries(colls1, buf.entries, 0)
    } else {
        Ok(colls1)
    }
}

// ---------------------------------------------------------------------------
// Condition matching, sorting keys, updates, projection
// ---------------------------------------------------------------------------

/// The value reached from `root` by one key hop: the stored link under `k`
/// followed through link chains.  Any failure reads as no value.
pub open spec fn cond_value(
    colls: Seq<CollectionModel>,
    buf: Seq<(LinkModel, ItemModel)>,
    root: ItemModel,
    k: Seq<char>,
) -> Option<ItemModel> {
    match root {
        ItemModel::Table(es) => match assoc_get(es, k) {
            Some(stored) => match stored {
                ItemModel::LinkTo(l) => match skip_links_spec(colls, Some(buf), l, 0) {
                    Ok(hit) => Some(hit.1),
                    Err(_) => None,
                },
                _ => Some(stored),
            },
            None => None,
        },
        _ => None,
    }
}

/// Whether the item stored under `id` satisfies every `(key, wanted)`
/// condition: the value one key hop from the root equals the wanted
/// primitive.
pub open spec fn matches_conds(
    colls: Seq<CollectionModel>,
    buf: Seq<(LinkModel, ItemModel)>,
    conds: Seq<(Seq<char>, ItemModel)>,
    id: LinkModel,
) -> bool {
    match value_lookup(colls, Some(buf), id) {
        Err(_) => false,
        Ok(root) => forall|j: int|
            0 <= j < conds.len() ==> cond_value(colls, buf, root, (#[trigger] conds[j]).0)
                == Some(conds[j].1),
    }
}

/// The links of a row map, in row order.
pub open spec fn rows_keys(rows: Seq<(LinkModel, RowModel)>) -> Seq<LinkModel> {
    Seq::new(rows.len(), |i: int| rows[i].0)
}

/// The candidates (from index `i` on) that satisfy the conditions, in order.
pub open spec fn find_filter(
    colls: Seq<CollectionModel>,
    buf: Seq<(LinkModel, ItemModel)>,
    conds: Seq<(Seq<char>, ItemModel)>,
    cands: Seq<LinkModel>,
    i: int,
) -> Seq<LinkModel>
    decreases cands.len() - i,
{
    if i < 0 || i >= cands.len() {
        Seq::empty()
    } else {
        (if matches_conds(colls, buf, conds, cands[i]) {
            seq![cands[i]]
        } else {
            Seq::empty()
        }) + find_filter(colls, buf, conds, cands, i + 1)
    }
}

/// The result of a find: candidates are the committed links of the target
/// collection when the find opens the step, the current working set
/// otherwise; values are read through the buffer, which shadows committed
/// data.
pub open spec fn find_result(
    colls: Seq<CollectionModel>,
    buf: Seq<(LinkModel, ItemModel)>,
    name: Seq<char>,
    conds: Seq<(Seq<char>, ItemModel)>,
    prior: Seq<LinkModel>,
    is_first: bool,
) -> Seq<LinkModel> {
    let cands = if is_first {
        match colls_get(colls, name) {
            Some(c) => rows_keys(c.rows),
            None => Seq::empty(),
        }
    } else {
        prior
    };
    find_filter(colls, buf, conds, cands, 0)
}

/// The sorting key of `id`: the number one key hop from its root, if any.
pub open spec fn sort_key_spec(
    colls: Seq<CollectionModel>,
    buf: Seq<(LinkModel, ItemModel)>,
    id: LinkModel,
    key: Seq<char>,
) -> Option<i64> {
    match value_lookup(colls, Some(buf), id) {
        Err(_) => None,
        Ok(root) => match cond_value(colls, buf, root, key) {
            Some(v) => match v {
                ItemModel::Number(n) => Some(n),
                _ => None,
            },
            None => None,
        },
    }
}

} // verus!
