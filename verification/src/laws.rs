//! Laws of the engine, stated and proved against the semantics that the
//! executable functions are specified by.

use vstd::prelude::*;

use crate::assoc::assoc_get;
use crate::errors::DBError;
use crate::model::{colls_get, CollectionModel, ItemModel, LinkModel};
use crate::query::{apply_set_spec, SetTargetModel};
use crate::semantics::{buf_put, fetch_spec, get_by_link_spec, link_lookup, LinkLookup};
use crate::FETCH_DEPTH_LIMIT;

verus! {

/// The link `start + k` of a staged chain: every link points at the next and
/// the last holds `Null`.
pub open spec fn chain_link(prefix: Seq<char>, start: u64, k: u64) -> LinkModel {
    LinkModel { prefix: prefix, id: (start + k) as u64 }
}

/// A chain of `n` links staged in the buffer, each pointing to the next, the
/// last one naming `Null`.
pub open spec fn chain_staged(
    entries: Seq<(LinkModel, ItemModel)>,
    prefix: Seq<char>,
    start: u64,
    n: u64,
) -> bool {
    forall|k: u64|
        k < n ==> assoc_get(entries, #[trigger] chain_link(prefix, start, k)) == Some(
            if k + 1 < n {
                ItemModel::LinkTo(chain_link(prefix, start, (k + 1) as u64))
            } else {
                ItemModel::Null
            },
        )
}

/// Depth bound: dereferencing a chain of `n` links succeeds exactly when the
/// chain fits in the remaining depth budget, and otherwise fails with the
/// recursion-limit error.
pub proof fn lemma_depth_bound(
    colls: Seq<CollectionModel>,
    entries: Seq<(LinkModel, ItemModel)>,
    prefix: Seq<char>,
    start: u64,
    n: u64,
    counter: u64,
)
    requires
        chain_staged(entries, prefix, start, n),
        1 <= n,
        start + n <= u64::MAX,
        counter as int + n as int <= u64::MAX,
    ensures
        counter + n < FETCH_DEPTH_LIMIT ==> fetch_spec(
            colls,
            entries,
            ItemModel::LinkTo(chain_link(prefix, start, 0)),
            counter,
        ) == Ok::<ItemModel, DBError>(ItemModel::Null),
        counter + n >= FETCH_DEPTH_LIMIT ==> fetch_spec(
            colls,
            entries,
            ItemModel::LinkTo(chain_link(prefix, start, 0)),
            counter,
        ) == Err::<ItemModel, DBError>(DBError::RecursionLimit),
    decreases n,
{
    let l0 = chain_link(prefix, start, 0);
    if counter >= FETCH_DEPTH_LIMIT {
    } else {
        assert(assoc_get(entries, l0) == Some(
            if 1 < n {
                ItemModel::LinkTo(chain_link(prefix, start, 1))
            } else {
                ItemModel::Null
            },
        ));
        if n == 1 {
        } else {
            assert forall|k: u64| k < n - 1 implies assoc_get(
                entries,
                #[trigger] chain_link(prefix, (start + 1) as u64, k),
            ) == Some(
                if k + 1 < n - 1 {
                    ItemModel::LinkTo(chain_link(prefix, (start + 1) as u64, (k + 1) as u64))
                } else {
                    ItemModel::Null
                },
            ) by {
                assert(chain_link(prefix, (start + 1) as u64, k) == chain_link(
                    prefix,
                    start,
                    (k + 1) as u64,
                ));
                assert(assoc_get(entries, chain_link(prefix, start, (k + 1) as u64)) == Some(
                    if k + 2 < n {
                        ItemModel::LinkTo(chain_link(prefix, start, (k + 2) as u64))
                    } else {
                        ItemModel::Null
                    },
                ));
                if k + 1 < n - 1 {
                    assert(chain_link(prefix, start, (k + 2) as u64) == chain_link(
                        prefix,
                        (start + 1) as u64,
                        (k + 1) as u64,
                    ));
                }
            }
            lemma_depth_bound(
                colls,
                entries,
                prefix,
                (start + 1) as u64,
                (n - 1) as u64,
                (counter + 1) as u64,
            );
            assert(chain_link(prefix, (start + 1) as u64, 0) == chain_link(prefix, start, 1));
        }
    }
}

/// Missing-reference leniency, direct form: dereferencing a link whose
/// collection exists but whose row was removed or never written yields `Null`,
/// not an error.
pub proof fn lemma_missing_reference_leniency(
    colls: Seq<CollectionModel>,
    entries: Seq<(LinkModel, ItemModel)>,
    l: LinkModel,
    counter: u64,
)
    requires
        assoc_get(entries, l) is None,
        colls_get(colls, l.prefix) is Some,
        assoc_get(colls_get(colls, l.prefix)->0.rows, l) is None,
        counter < FETCH_DEPTH_LIMIT,
    ensures
        fetch_spec(colls, entries, ItemModel::LinkTo(l), counter) == Ok::<ItemModel, DBError>(
            ItemModel::Null,
        ),
        get_by_link_spec(colls, entries, l, counter) == Ok::<ItemModel, DBError>(ItemModel::Null),
{
    assert(link_lookup(colls, entries, l) is Absent);
}

/// Missing-reference leniency, container form: fetching a mapping holding a
/// key whose stored link does not resolve does not fail; the key reads as
/// `Null` and the surrounding structure survives.
pub proof fn lemma_missing_reference_in_table(
    colls: Seq<CollectionModel>,
    entries: Seq<(LinkModel, ItemModel)>,
    key: Seq<char>,
    l: LinkModel,
    counter: u64,
)
    requires
        assoc_get(entries, l) is None,
        colls_get(colls, l.prefix) is Some,
        assoc_get(colls_get(colls, l.prefix)->0.rows, l) is None,
        counter + 1 < FETCH_DEPTH_LIMIT,
    ensures
        fetch_spec(
            colls,
            entries,
            ItemModel::Table(seq![(key, ItemModel::LinkTo(l))]),
            counter,
        ) == Ok::<ItemModel, DBError>(ItemModel::Table(seq![(key, ItemModel::Null)])),
{
    let es = seq![(key, ItemModel::LinkTo(l))];
    let c = (counter + 1) as u64;
    lemma_missing_reference_leniency(colls, entries, l, c);
    assert(crate::semantics::fetch_entries_spec(colls, entries, es, c, 1) == Ok::<
        Seq<(Seq<char>, ItemModel)>,
        DBError,
    >(Seq::empty()));
    assert(crate::semantics::fetch_entries_spec(colls, entries, es, c, 0) == Ok::<
        Seq<(Seq<char>, ItemModel)>,
        DBError,
    >(seq![(key, ItemModel::Null)] + Seq::empty()));
    assert(seq![(key, ItemModel::Null)] + Seq::<(Seq<char>, ItemModel)>::empty() =~= seq![
        (key, ItemModel::Null),
    ]);
}

/// Delete-as-update semantics: a root-targeted write of the tombstone stages
/// exactly the matched link bound to `Deleted` — the collection itself is not
/// touched.
pub proof fn lemma_delete_rewrites_root(
    colls: Seq<CollectionModel>,
    buf: crate::model::BufferModel,
    id: LinkModel,
)
    ensures
        apply_set_spec(colls, buf, id, SetTargetModel::RootT, ItemModel::Deleted) == Ok::<
            crate::model::BufferModel,
            DBError,
        >(buf_put(buf, id, ItemModel::Deleted)),
{
}


// ---------------------------------------------------------------------------
// Flatten/fetch round trip
// ---------------------------------------------------------------------------

/// A value made only of scalars and containers: no links (their targets live
/// elsewhere) and no tombstones.
pub open spec fn pure_value(v: ItemModel) -> bool
    decreases v,
{
    match v {
        ItemModel::LinkTo(_) => false,
        ItemModel::Deleted => false,
        ItemModel::Array(s) => forall|j: int| 0 <= j < s.len() ==> pure_value(#[trigger] s[j]),
        ItemModel::Table(es) => forall|j: int|
            0 <= j < es.len() ==> pure_value((#[trigger] es[j]).1),
        _ => true,
    }
}

/// How many fresh links staging `v` mints: one for the value itself and one
/// for every nested sub-value.
pub open spec fn stage_size(v: ItemModel) -> nat
    decreases v, 0nat,
{
    match v {
        ItemModel::Array(s) => 1 + elems_stage_size(s, 0),
        ItemModel::Table(es) => 1 + entries_stage_size(es, 0),
        _ => 1,
    }
}

pub open spec fn elems_stage_size(s: Seq<ItemModel>, i: int) -> nat
    decreases s, s.len() - i, 1nat,
{
    if i < 0 || i >= s.len() {
        0
    } else {
        stage_size(s[i]) + elems_stage_size(s, i + 1)
    }
}

pub open spec fn entries_stage_size(es: Seq<(Seq<char>, ItemModel)>, i: int) -> nat
    decreases es, es.len() - i, 1nat,
{
    if i < 0 || i >= es.len() {
        0
    } else {
        stage_size(es[i].1) + entries_stage_size(es, i + 1)
    }
}

/// The depth budget a fetch needs to rebuild the staged form of `v` starting
/// from its link: one hop plus one descent per nesting level.
pub open spec fn fetch_need(v: ItemModel) -> nat
    decreases v, 0nat,
{
    match v {
        ItemModel::Array(s) => 2 + elems_fetch_need(s, 0),
        ItemModel::Table(es) => 2 + entries_fetch_need(es, 0),
        _ => 2,
    }
}

pub open spec fn elems_fetch_need(s: Seq<ItemModel>, i: int) -> nat
    decreases s, s.len() - i, 1nat,
{
    if i < 0 || i >= s.len() {
        0
    } else {
        let here = fetch_need(s[i]);
        let rest = elems_fetch_need(s, i + 1);
        if here >= rest {
            here
        } else {
            rest
        }
    }
}

pub open spec fn entries_fetch_need(es: Seq<(Seq<char>, ItemModel)>, i: int) -> nat
    decreases es, es.len() - i, 1nat,
{
    if i < 0 || i >= es.len() {
        0
    } else {
        let here = fetch_need(es[i].1);
        let rest = entries_fetch_need(es, i + 1);
        if here >= rest {
            here
        } else {
            rest
        }
    }
}

/// Every binding of `b1` is intact in `b2`.
pub open spec fn entries_extend(
    b1: Seq<(LinkModel, ItemModel)>,
    b2: Seq<(LinkModel, ItemModel)>,
) -> bool {
    forall|l: LinkModel| (#[trigger] assoc_get(b1, l)) is Some ==> assoc_get(b2, l) == assoc_get(
        b1,
        l,
    )
}

/// Every staged link identifier lies below the buffer's next fresh one.
pub open spec fn buf_bounded(buf: crate::model::BufferModel) -> bool {
    forall|j: int|
        0 <= j < buf.entries.len() ==> (#[trigger] buf.entries[j]).0.id < buf.next_id
}

/// A link at or above the bound is unbound in a bounded buffer.
proof fn lemma_fresh_unbound(buf: crate::model::BufferModel, l: LinkModel)
    requires
        buf_bounded(buf),
        l.id >= buf.next_id,
    ensures
        assoc_get(buf.entries, l) is None,
{
    assert forall|j: int| 0 <= j < buf.entries.len() implies (#[trigger] buf.entries[j]).0 != l by {
        assert(buf.entries[j].0.id < buf.next_id);
    }
    crate::assoc::lemma_assoc_index_none(buf.entries, l);
}

/// Binding an unbound link appends the pair: every other key reads as before.
proof fn lemma_put_unbound(buf: crate::model::BufferModel, l: LinkModel, v: ItemModel)
    requires
        assoc_get(buf.entries, l) is None,
    ensures
        buf_put(buf, l, v).entries == buf.entries.push((l, v)),
        assoc_get(buf_put(buf, l, v).entries, l) == Some(v),
        forall|lk: LinkModel|
            lk != l ==> #[trigger] assoc_get(buf_put(buf, l, v).entries, lk) == assoc_get(
                buf.entries,
                lk,
            ),
        entries_extend(buf.entries, buf_put(buf, l, v).entries),
{
    crate::assoc::lemma_assoc_put(buf.entries, l, v);
    assert forall|lk: LinkModel| (#[trigger] assoc_get(buf.entries, lk)) is Some implies assoc_get(
        buf_put(buf, l, v).entries,
        lk,
    ) == assoc_get(buf.entries, lk) by {
        if lk == l {
        } else {
            assert(assoc_get(buf_put(buf, l, v).entries, lk) == assoc_get(buf.entries, lk));
        }
    }
}

/// Extension is transitive.
proof fn lemma_extend_trans(
    a: Seq<(LinkModel, ItemModel)>,
    b: Seq<(LinkModel, ItemModel)>,
    c: Seq<(LinkModel, ItemModel)>,
)
    requires
        entries_extend(a, b),
        entries_extend(b, c),
    ensures
        entries_extend(a, c),
{
    assert forall|l: LinkModel| (#[trigger] assoc_get(a, l)) is Some implies assoc_get(c, l)
        == assoc_get(a, l) by {
        assert(assoc_get(b, l) == assoc_get(a, l));
    }
}

/// Fetching a sequence of links whose targets are known rebuilds the values.
proof fn lemma_fetch_links_elems(
    colls: Seq<CollectionModel>,
    e2: Seq<(LinkModel, ItemModel)>,
    links: Seq<ItemModel>,
    s: Seq<ItemModel>,
    c: u64,
    i: int,
)
    requires
        links.len() == s.len(),
        0 <= i <= s.len(),
        forall|j: int|
            0 <= j < s.len() ==> fetch_spec(colls, e2, #[trigger] links[j], c) == Ok::<
                ItemModel,
                DBError,
            >(s[j]),
    ensures
        crate::semantics::fetch_elems_spec(colls, e2, links, c, i) == Ok::<Seq<ItemModel>, DBError>(
            s.skip(i),
        ),
    decreases s.len() - i,
{
    if i >= s.len() {
        assert(s.skip(i) =~= Seq::<ItemModel>::empty());
    } else {
        lemma_fetch_links_elems(colls, e2, links, s, c, i + 1);
        assert(seq![s[i]] + s.skip(i + 1) =~= s.skip(i));
    }
}

/// Fetching a table of links whose targets are known rebuilds the entries.
proof fn lemma_fetch_links_entries(
    colls: Seq<CollectionModel>,
    e2: Seq<(LinkModel, ItemModel)>,
    links: Seq<(Seq<char>, ItemModel)>,
    es: Seq<(Seq<char>, ItemModel)>,
    c: u64,
    i: int,
)
    requires
        links.len() == es.len(),
        0 <= i <= es.len(),
        forall|j: int| 0 <= j < es.len() ==> (#[trigger] links[j]).0 == es[j].0,
        forall|j: int|
            0 <= j < es.len() ==> fetch_spec(colls, e2, (#[trigger] links[j]).1, c) == Ok::<
                ItemModel,
                DBError,
            >(es[j].1),
    ensures
        crate::semantics::fetch_entries_spec(colls, e2, links, c, i) == Ok::<
            Seq<(Seq<char>, ItemModel)>,
            DBError,
        >(es.skip(i)),
    decreases es.len() - i,
{
    if i >= es.len() {
        assert(es.skip(i) =~= Seq::<(Seq<char>, ItemModel)>::empty());
    } else {
        lemma_fetch_links_entries(colls, e2, links, es, c, i + 1);
        assert((links[i].0, es[i].1) == es[i]);
        assert(seq![es[i]] + es.skip(i + 1) =~= es.skip(i));
    }
}

/// Staging a pure value under a fresh link succeeds, extends the buffer with
/// fresh bindings only, and every later extension of the buffer dereferences
/// that link back to the value, given enough depth budget.
proof fn lemma_stage_at_round_trip(buf: crate::model::BufferModel, l: LinkModel, v: ItemModel)
    requires
        pure_value(v),
        buf_bounded(buf),
        l.id < buf.next_id,
        assoc_get(buf.entries, l) is None,
        buf.next_id + stage_size(v) - 1 <= u64::MAX,
    ensures
        crate::semantics::stage_at_spec(buf, l, v) is Ok,
        ({
            let b2 = crate::semantics::stage_at_spec(buf, l, v)->Ok_0;
            &&& b2.next_id == buf.next_id + stage_size(v) - 1
            &&& buf_bounded(b2)
            &&& entries_extend(buf.entries, b2.entries)
            &&& forall|lk: LinkModel|
                lk.id < buf.next_id && lk != l ==> #[trigger] assoc_get(b2.entries, lk)
                    == assoc_get(buf.entries, lk)
            &&& forall|colls: Seq<CollectionModel>, e2: Seq<(LinkModel, ItemModel)>, c: u64|
                entries_extend(b2.entries, e2) && c + fetch_need(v) <= FETCH_DEPTH_LIMIT
                    ==> #[trigger] fetch_spec(colls, e2, ItemModel::LinkTo(l), c) == Ok::<
                    ItemModel,
                    DBError,
                >(v)
        }),
    decreases v, 0nat, 0nat,
{
    match v {
        ItemModel::Array(s) => {
            lemma_stage_elems_round_trip(buf, s, 0);
            let r = crate::semantics::stage_elems_spec(buf, s, 0)->Ok_0;
            let bm = r.0;
            let links = r.1;
            assert(assoc_get(bm.entries, l) == assoc_get(buf.entries, l));
            lemma_put_unbound(bm, l, ItemModel::Array(links));
            let b2 = buf_put(bm, l, ItemModel::Array(links));
            assert(crate::semantics::stage_at_spec(buf, l, v) == Ok::<
                crate::model::BufferModel,
                DBError,
            >(b2));
            lemma_extend_trans(buf.entries, bm.entries, b2.entries);
            assert forall|colls: Seq<CollectionModel>, e2: Seq<(LinkModel, ItemModel)>, c: u64|
                entries_extend(b2.entries, e2) && c + fetch_need(v) <= FETCH_DEPTH_LIMIT implies
                #[trigger] fetch_spec(colls, e2, ItemModel::LinkTo(l), c) == Ok::<
                ItemModel,
                DBError,
            >(v) by {
                lemma_extend_trans(bm.entries, b2.entries, e2);
                assert(assoc_get(e2, l) == Some(ItemModel::Array(links)));
                assert(link_lookup(colls, e2, l) == LinkLookup::Hit(ItemModel::Array(links)));
                let c2 = (c + 2) as u64;
                assert forall|j: int| 0 <= j < s.len() implies fetch_spec(
                    colls,
                    e2,
                    #[trigger] links[j],
                    c2,
                ) == Ok::<ItemModel, DBError>(s[j]) by {
                    lemma_elems_need_bound(s, 0, j);
                }
                lemma_fetch_links_elems(colls, e2, links, s, c2, 0);
                assert(s.skip(0) =~= s);
                assert(fetch_spec(colls, e2, ItemModel::Array(links), (c + 1) as u64) == Ok::<
                    ItemModel,
                    DBError,
                >(ItemModel::Array(s)));
            }
        },
        ItemModel::Table(es) => {
            lemma_stage_entries_round_trip(buf, es, 0);
            let r = crate::semantics::stage_entries_spec(buf, es, 0)->Ok_0;
            let bm = r.0;
            let links = r.1;
            assert(assoc_get(bm.entries, l) == assoc_get(buf.entries, l));
            lemma_put_unbound(bm, l, ItemModel::Table(links));
            let b2 = buf_put(bm, l, ItemModel::Table(links));
            assert(crate::semantics::stage_at_spec(buf, l, v) == Ok::<
                crate::model::BufferModel,
                DBError,
            >(b2));
            lemma_extend_trans(buf.entries, bm.entries, b2.entries);
            assert forall|colls: Seq<CollectionModel>, e2: Seq<(LinkModel, ItemModel)>, c: u64|
                entries_extend(b2.entries, e2) && c + fetch_need(v) <= FETCH_DEPTH_LIMIT implies
                #[trigger] fetch_spec(colls, e2, ItemModel::LinkTo(l), c) == Ok::<
                ItemModel,
                DBError,
            >(v) by {
                lemma_extend_trans(bm.entries, b2.entries, e2);
                assert(assoc_get(e2, l) == Some(ItemModel::Table(links)));
                assert(link_lookup(colls, e2, l) == LinkLookup::Hit(ItemModel::Table(links)));
                let c2 = (c + 2) as u64;
                assert forall|j: int| 0 <= j < es.len() implies fetch_spec(
                    colls,
                    e2,
                    (#[trigger] links[j]).1,
                    c2,
                ) == Ok::<ItemModel, DBError>(es[j].1) by {
                    lemma_entries_need_bound(es, 0, j);
                }
                lemma_fetch_links_entries(colls, e2, links, es, c2, 0);
                assert(es.skip(0) =~= es);
                assert(fetch_spec(colls, e2, ItemModel::Table(links), (c + 1) as u64) == Ok::<
                    ItemModel,
                    DBError,
                >(ItemModel::Table(es)));
            }
        },
        _ => {
            lemma_put_unbound(buf, l, v);
            let b2 = buf_put(buf, l, v);
            assert(crate::semantics::stage_at_spec(buf, l, v) == Ok::<
                crate::model::BufferModel,
                DBError,
            >(b2));
            assert forall|colls: Seq<CollectionModel>, e2: Seq<(LinkModel, ItemModel)>, c: u64|
                entries_extend(b2.entries, e2) && c + fetch_need(v) <= FETCH_DEPTH_LIMIT implies
                #[trigger] fetch_spec(colls, e2, ItemModel::LinkTo(l), c) == Ok::<
                ItemModel,
                DBError,
            >(v) by {
                assert(assoc_get(e2, l) == Some(v));
                assert(link_lookup(colls, e2, l) == LinkLookup::Hit(v));
                assert(fetch_spec(colls, e2, v, (c + 1) as u64) == Ok::<ItemModel, DBError>(v));
            }
        },
    }
}

/// The depth budget of one element is at most the budget of its array.
proof fn lemma_elems_need_bound(s: Seq<ItemModel>, i: int, j: int)
    requires
        0 <= i <= j < s.len(),
    ensures
        fetch_need(s[j]) <= elems_fetch_need(s, i),
    decreases j - i,
{
    if i < j {
        lemma_elems_need_bound(s, i + 1, j);
    }
}

/// The depth budget of one entry value is at most the budget of its table.
proof fn lemma_entries_need_bound(es: Seq<(Seq<char>, ItemModel)>, i: int, j: int)
    requires
        0 <= i <= j < es.len(),
    ensures
        fetch_need(es[j].1) <= entries_fetch_need(es, i),
    decreases j - i,
{
    if i < j {
        lemma_entries_need_bound(es, i + 1, j);
    }
}

/// Staging a pure value into a collection mints a fresh link for it, extends
/// the buffer with fresh bindings only, and every later extension
/// dereferences the returned link back to the value.
proof fn lemma_stage_round_trip(buf: crate::model::BufferModel, name: Seq<char>, v: ItemModel)
    requires
        pure_value(v),
        buf_bounded(buf),
        buf.next_id + stage_size(v) <= u64::MAX,
    ensures
        crate::semantics::stage_spec(buf, name, v) is Ok,
        ({
            let r = crate::semantics::stage_spec(buf, name, v)->Ok_0;
            &&& r.1 == ItemModel::LinkTo(LinkModel { prefix: name, id: buf.next_id })
            &&& r.0.next_id == buf.next_id + stage_size(v)
            &&& buf_bounded(r.0)
            &&& entries_extend(buf.entries, r.0.entries)
            &&& forall|lk: LinkModel|
                lk.id < buf.next_id ==> #[trigger] assoc_get(r.0.entries, lk) == assoc_get(
                    buf.entries,
                    lk,
                )
            &&& forall|colls: Seq<CollectionModel>, e2: Seq<(LinkModel, ItemModel)>, c: u64|
                entries_extend(r.0.entries, e2) && c + fetch_need(v) <= FETCH_DEPTH_LIMIT
                    ==> #[trigger] fetch_spec(colls, e2, r.1, c) == Ok::<ItemModel, DBError>(v)
        }),
    decreases v, 1nat, 0nat,
{
    let l = LinkModel { prefix: name, id: buf.next_id };
    let b1 = crate::model::BufferModel { next_id: (buf.next_id + 1) as u64, ..buf };
    assert(buf_bounded(b1));
    lemma_fresh_unbound(buf, l);
    lemma_stage_at_round_trip(b1, l, v);
    let b2 = crate::semantics::stage_at_spec(b1, l, v)->Ok_0;
    assert forall|lk: LinkModel| lk.id < buf.next_id implies #[trigger] assoc_get(b2.entries, lk)
        == assoc_get(buf.entries, lk) by {
        assert(lk != l);
    }
}

/// Staging the elements of a pure array from index `i` on: every element gets
/// a fresh link that any later buffer extension dereferences back to it.
proof fn lemma_stage_elems_round_trip(buf: crate::model::BufferModel, s: Seq<ItemModel>, i: int)
    requires
        forall|j: int| 0 <= j < s.len() ==> pure_value(#[trigger] s[j]),
        buf_bounded(buf),
        0 <= i <= s.len(),
        buf.next_id + elems_stage_size(s, i) <= u64::MAX,
    ensures
        crate::semantics::stage_elems_spec(buf, s, i) is Ok,
        ({
            let r = crate::semantics::stage_elems_spec(buf, s, i)->Ok_0;
            &&& r.1.len() == s.len() - i
            &&& r.0.next_id == buf.next_id + elems_stage_size(s, i)
            &&& buf_bounded(r.0)
            &&& entries_extend(buf.entries, r.0.entries)
            &&& forall|lk: LinkModel|
                lk.id < buf.next_id ==> #[trigger] assoc_get(r.0.entries, lk) == assoc_get(
                    buf.entries,
                    lk,
                )
            &&& forall|colls: Seq<CollectionModel>, e2: Seq<(LinkModel, ItemModel)>, c: u64, j: int|
                0 <= j < r.1.len() && entries_extend(r.0.entries, e2) && c + fetch_need(s[i + j])
                    <= FETCH_DEPTH_LIMIT ==> #[trigger] fetch_spec(colls, e2, r.1[j], c) == Ok::<
                    ItemModel,
                    DBError,
                >(s[i + j])
        }),
    decreases s, s.len() - i, 2nat,
{
    if i >= s.len() {
    } else {
        lemma_stage_round_trip(buf, crate::semantics::internal_name(), s[i]);
        let ra = crate::semantics::stage_spec(buf, crate::semantics::internal_name(), s[i])->Ok_0;
        let ba = ra.0;
        let lia = ra.1;
        lemma_stage_elems_round_trip(ba, s, i + 1);
        let rb = crate::semantics::stage_elems_spec(ba, s, i + 1)->Ok_0;
        let b2 = rb.0;
        let rest = rb.1;
        lemma_extend_trans(buf.entries, ba.entries, b2.entries);
        let links = seq![lia] + rest;
        assert(crate::semantics::stage_elems_spec(buf, s, i)->Ok_0 == (b2, links));
        assert forall|lk: LinkModel| lk.id < buf.next_id implies #[trigger] assoc_get(
            b2.entries,
            lk,
        ) == assoc_get(buf.entries, lk) by {
            assert(assoc_get(ba.entries, lk) == assoc_get(buf.entries, lk));
        }
        assert forall|
            colls: Seq<CollectionModel>,
            e2: Seq<(LinkModel, ItemModel)>,
            c: u64,
            j: int,
        |
            0 <= j < links.len() && entries_extend(b2.entries, e2) && c + fetch_need(s[i + j])
                <= FETCH_DEPTH_LIMIT implies #[trigger] fetch_spec(colls, e2, links[j], c) == Ok::<
            ItemModel,
            DBError,
        >(s[i + j]) by {
            if j == 0 {
                lemma_extend_trans(ba.entries, b2.entries, e2);
                assert(links[0] == lia);
            } else {
                assert(links[j] == rest[j - 1]);
                assert(fetch_spec(colls, e2, rest[j - 1], c) == Ok::<ItemModel, DBError>(
                    s[i + 1 + (j - 1)],
                ));
            }
        }
    }
}

/// Staging the entry values of a pure mapping from index `i` on.
proof fn lemma_stage_entries_round_trip(
    buf: crate::model::BufferModel,
    es: Seq<(Seq<char>, ItemModel)>,
    i: int,
)
    requires
        forall|j: int| 0 <= j < es.len() ==> pure_value((#[trigger] es[j]).1),
        buf_bounded(buf),
        0 <= i <= es.len(),
        buf.next_id + entries_stage_size(es, i) <= u64::MAX,
    ensures
        crate::semantics::stage_entries_spec(buf, es, i) is Ok,
        ({
            let r = crate::semantics::stage_entries_spec(buf, es, i)->Ok_0;
            &&& r.1.len() == es.len() - i
            &&& r.0.next_id == buf.next_id + entries_stage_size(es, i)
            &&& buf_bounded(r.0)
            &&& entries_extend(buf.entries, r.0.entries)
            &&& forall|lk: LinkModel|
                lk.id < buf.next_id ==> #[trigger] assoc_get(r.0.entries, lk) == assoc_get(
                    buf.entries,
                    lk,
                )
            &&& forall|j: int| 0 <= j < r.1.len() ==> (#[trigger] r.1[j]).0 == es[i + j].0
            &&& forall|colls: Seq<CollectionModel>, e2: Seq<(LinkModel, ItemModel)>, c: u64, j: int|
                0 <= j < r.1.len() && entries_extend(r.0.entries, e2) && c + fetch_need(
                    es[i + j].1,
                ) <= FETCH_DEPTH_LIMIT ==> #[trigger] fetch_spec(colls, e2, r.1[j].1, c) == Ok::<
                    ItemModel,
                    DBError,
                >(es[i + j].1)
        }),
    decreases es, es.len() - i, 2nat,
{
    if i >= es.len() {
    } else {
        lemma_stage_round_trip(buf, crate::semantics::internal_name(), es[i].1);
        let ra = crate::semantics::stage_spec(
            buf,
            crate::semantics::internal_name(),
            es[i].1,
        )->Ok_0;
        let ba = ra.0;
        let lia = ra.1;
        lemma_stage_entries_round_trip(ba, es, i + 1);
        let rb = crate::semantics::stage_entries_spec(ba, es, i + 1)->Ok_0;
        let b2 = rb.0;
        let rest = rb.1;
        lemma_extend_trans(buf.entries, ba.entries, b2.entries);
        let links = seq![(es[i].0, lia)] + rest;
        assert(crate::semantics::stage_entries_spec(buf, es, i)->Ok_0 == (b2, links));
        assert forall|lk: LinkModel| lk.id < buf.next_id implies #[trigger] assoc_get(
            b2.entries,
            lk,
        ) == assoc_get(buf.entries, lk) by {
            assert(assoc_get(ba.entries, lk) == assoc_get(buf.entries, lk));
        }
        assert forall|
            colls: Seq<CollectionModel>,
            e2: Seq<(LinkModel, ItemModel)>,
            c: u64,
            j: int,
        |
            0 <= j < links.len() && entries_extend(b2.entries, e2) && c + fetch_need(es[i + j].1)
                <= FETCH_DEPTH_LIMIT implies #[trigger] fetch_spec(colls, e2, links[j].1, c)
            == Ok::<ItemModel, DBError>(es[i + j].1) by {
            if j == 0 {
                lemma_extend_trans(ba.entries, b2.entries, e2);
                assert(links[0].1 == lia);
            } else {
                assert(links[j] == rest[j - 1]);
                assert(fetch_spec(colls, e2, rest[j - 1].1, c) == Ok::<ItemModel, DBError>(
                    es[i + 1 + (j - 1)].1,
                ));
            }
        }
    }
}

/// Flatten/fetch round trip: inserting any pure value into a collection and
/// dereferencing the returned link reproduces the value exactly, provided the
/// value fits the depth bound and the identifier space.
pub proof fn lemma_flatten_fetch_round_trip(
    colls: Seq<CollectionModel>,
    buf: crate::model::BufferModel,
    name: Seq<char>,
    v: ItemModel,
)
    requires
        pure_value(v),
        buf_bounded(buf),
        buf.next_id + stage_size(v) <= u64::MAX,
        fetch_need(v) <= FETCH_DEPTH_LIMIT,
    ensures
        crate::semantics::stage_spec(buf, name, v) is Ok,
        ({
            let r = crate::semantics::stage_spec(buf, name, v)->Ok_0;
            fetch_spec(colls, r.0.entries, r.1, 0) == Ok::<ItemModel, DBError>(v)
        }),
{
    let l = LinkModel { prefix: name, id: buf.next_id };
    let b1 = crate::model::BufferModel { next_id: (buf.next_id + 1) as u64, ..buf };
    assert(buf_bounded(b1));
    lemma_fresh_unbound(buf, l);
    assert(assoc_get(b1.entries, l) is None);
    lemma_stage_at_round_trip(b1, l, v);
    let b2 = crate::semantics::stage_at_spec(b1, l, v)->Ok_0;
    assert(entries_extend(b2.entries, b2.entries));
    assert(fetch_spec(colls, b2.entries, ItemModel::LinkTo(l), 0) == Ok::<ItemModel, DBError>(v));
}


// ---------------------------------------------------------------------------
// Back-track consistency
// ---------------------------------------------------------------------------

/// Recording a reference: after the commit registers that `m` references `x`
/// at `path`, the back-track index of `x`'s row holds exactly that entry, and
/// every other referencer's entry is untouched.
pub proof fn lemma_back_track_recorded(
    colls: Seq<CollectionModel>,
    x: LinkModel,
    m: LinkModel,
    path: crate::model::PathModel,
)
    requires
        crate::semantics::add_one(colls, x, m, path) is Ok,
    ensures
        ({
            let c2 = crate::semantics::add_one(colls, x, m, path)->Ok_0;
            let ci = crate::model::coll_index_of(colls, x.prefix);
            &&& crate::model::coll_index_of(c2, x.prefix) == ci
            &&& assoc_get(c2[ci].rows, x) is Some
            &&& assoc_get(assoc_get(c2[ci].rows, x)->0.back_track, m) == Some(path)
            &&& forall|other: LinkModel|
                other != m ==> assoc_get(
                    #[trigger] assoc_get(c2[ci].rows, x)->0.back_track,
                    other,
                ) == assoc_get(assoc_get(colls[ci].rows, x)->0.back_track, other)
        }),
{
    let ci = crate::model::coll_index_of(colls, x.prefix);
    crate::model::lemma_coll_index_of(colls, x.prefix);
    let c2 = crate::semantics::add_one(colls, x, m, path)->Ok_0;
    let row = assoc_get(colls[ci].rows, x)->0;
    crate::assoc::lemma_assoc_put(
        colls[ci].rows,
        x,
        crate::model::RowModel {
            item: row.item,
            back_track: crate::assoc::assoc_put(row.back_track, m, path),
        },
    );
    crate::assoc::lemma_assoc_put(row.back_track, m, path);
    assert(c2.len() == colls.len());
    assert forall|j: int| 0 <= j < colls.len() implies (#[trigger] colls[j]).name == c2[j].name
        by {}
    crate::model::lemma_coll_index_same_names(colls, c2, x.prefix);
    crate::assoc::lemma_assoc_put(
        colls[ci].rows,
        x,
        crate::model::RowModel {
            item: row.item,
            back_track: crate::assoc::assoc_put(row.back_track, m, path),
        },
    );
}

/// Retracting a reference: after the commit retracts `m` from the back-track
/// index of `x` (whose entries are keyed uniquely, as the commit maintains),
/// `x`'s row no longer holds an entry for `m`, and every other referencer's
/// entry is untouched.
pub proof fn lemma_back_track_retracted(colls: Seq<CollectionModel>, x: LinkModel, m: LinkModel)
    requires
        crate::model::coll_index_of(colls, x.prefix) >= 0,
        assoc_get(colls[crate::model::coll_index_of(colls, x.prefix)].rows, x) is Some,
        crate::assoc::assoc_unique(
            assoc_get(
                colls[crate::model::coll_index_of(colls, x.prefix)].rows,
                x,
            )->0.back_track,
        ),
    ensures
        ({
            let c2 = crate::semantics::retract_one(colls, m, x);
            let ci = crate::model::coll_index_of(colls, x.prefix);
            &&& crate::model::coll_index_of(c2, x.prefix) == ci
            &&& assoc_get(c2[ci].rows, x) is Some
            &&& assoc_get(assoc_get(c2[ci].rows, x)->0.back_track, m) is None
            &&& forall|other: LinkModel|
                other != m ==> assoc_get(
                    #[trigger] assoc_get(c2[ci].rows, x)->0.back_track,
                    other,
                ) == assoc_get(assoc_get(colls[ci].rows, x)->0.back_track, other)
        }),
{
    let ci = crate::model::coll_index_of(colls, x.prefix);
    crate::model::lemma_coll_index_of(colls, x.prefix);
    let c2 = crate::semantics::retract_one(colls, m, x);
    let row = assoc_get(colls[ci].rows, x)->0;
    crate::assoc::lemma_assoc_put(
        colls[ci].rows,
        x,
        crate::model::RowModel {
            item: row.item,
            back_track: crate::assoc::assoc_remove(row.back_track, m),
        },
    );
    crate::assoc::lemma_assoc_remove(row.back_track, m);
    assert(c2.len() == colls.len());
    assert forall|j: int| 0 <= j < colls.len() implies (#[trigger] colls[j]).name == c2[j].name
        by {}
    crate::model::lemma_coll_index_same_names(colls, c2, x.prefix);
}

/// Back-track consistency through a whole committed write: after the commit
/// stores the mapping `{k: x}` under `m`, the back-track index of `x`'s row
/// holds the entry `(m, at key k)`.  (A self-reference `x == m` is recorded
/// the same way; the distinct-link case is the one stated here.)
pub proof fn lemma_commit_records_reference(
    colls: Seq<CollectionModel>,
    m: LinkModel,
    k: Seq<char>,
    x: LinkModel,
)
    requires
        x != m,
        crate::semantics::commit_one(
            colls,
            m,
            ItemModel::Table(seq![(k, ItemModel::LinkTo(x))]),
        ) is Ok,
    ensures
        ({
            let c2 = crate::semantics::commit_one(
                colls,
                m,
                ItemModel::Table(seq![(k, ItemModel::LinkTo(x))]),
            )->Ok_0;
            let ci = crate::model::coll_index_of(c2, x.prefix);
            &&& ci >= 0
            &&& assoc_get(c2[ci].rows, x) is Some
            &&& assoc_get(assoc_get(c2[ci].rows, x)->0.back_track, m) == Some(
                crate::model::PathModel::AtKey(k),
            )
        }),
{
    let v = ItemModel::Table(seq![(k, ItemModel::LinkTo(x))]);
    let es = seq![(k, ItemModel::LinkTo(x))];
    let colls1 = crate::semantics::ensure_coll(colls, m.prefix);
    let cim = crate::model::coll_index_of(colls1, m.prefix);
    let colls2 = colls1.update(
        cim,
        (CollectionModel { log: colls1[cim].log.push((m, v)), ..colls1[cim] }),
    );
    let colls3 = match assoc_get(colls2[cim].rows, m) {
        Some(row) => crate::semantics::retract_item(colls2, m, row.item),
        None => colls2,
    };
    assert(es[0].1 == ItemModel::LinkTo(x));
    assert(crate::semantics::add_entries(colls3, m, es, 0) is Ok);
    assert(crate::semantics::add_one(colls3, x, m, crate::model::PathModel::AtKey(k)) is Ok);
    let c4 = crate::semantics::add_one(colls3, x, m, crate::model::PathModel::AtKey(k))->Ok_0;
    assert(crate::semantics::add_entries(c4, m, es, 1) == Ok::<Seq<CollectionModel>, DBError>(c4));
    lemma_back_track_recorded(colls3, x, m, crate::model::PathModel::AtKey(k));
    let cix = crate::model::coll_index_of(colls3, x.prefix);
    crate::model::lemma_coll_index_of(colls3, x.prefix);
    let c2 = crate::semantics::upsert_row(c4, m, v);
    assert(crate::semantics::commit_one(colls, m, v) == Ok::<Seq<CollectionModel>, DBError>(c2));
    let cim4 = crate::model::coll_index_of(c4, m.prefix);
    crate::model::lemma_coll_index_of(c4, m.prefix);
    assert(c2.len() == c4.len());
    assert forall|j: int| 0 <= j < c4.len() implies (#[trigger] c4[j]).name == c2[j].name by {}
    crate::model::lemma_coll_index_same_names(c4, c2, x.prefix);
    if cim4 == -1 {
    } else {
        if cim4 == cix {
            let rows4 = c4[cix].rows;
            let bt = match assoc_get(rows4, m) {
                Some(row) => row.back_track,
                None => Seq::empty(),
            };
            crate::assoc::lemma_assoc_put(
                rows4,
                m,
                (crate::model::RowModel { item: v, back_track: bt }),
            );
        } else {
            assert(c2[cix] == c4[cix]);
        }
    }
}


/// Binding a link below the bound keeps the buffer bounded.
proof fn lemma_put_bounded(b: crate::model::BufferModel, l: LinkModel, x: ItemModel)
    requires
        buf_bounded(b),
        l.id < b.next_id,
    ensures
        buf_bounded(buf_put(b, l, x)),
{
    crate::assoc::lemma_assoc_index_of(b.entries, l);
    let after = buf_put(b, l, x).entries;
    let idx = crate::assoc::assoc_index_of(b.entries, l);
    assert forall|j: int| 0 <= j < after.len() implies (#[trigger] after[j]).0.id < b.next_id by {
        if idx == -1 {
            if j < b.entries.len() {
                assert(after[j] == b.entries[j]);
            }
        } else {
            if j != idx {
                assert(after[j] == b.entries[j]);
            }
        }
    }
}

/// Staging under a fresh link extends a bounded buffer: existing bindings are
/// never overwritten, every minted identifier stays below the new bound.
/// (Staging at a given existing link — a root update — may rebind that link
/// and only it.)
pub proof fn lemma_stage_at_extends(buf: crate::model::BufferModel, l: LinkModel, v: ItemModel)
    requires
        buf_bounded(buf),
        l.id < buf.next_id,
    ensures
        crate::semantics::stage_at_spec(buf, l, v) is Ok ==> ({
            let b2 = crate::semantics::stage_at_spec(buf, l, v)->Ok_0;
            &&& b2.next_id >= buf.next_id
            &&& buf_bounded(b2)
            &&& forall|lk: LinkModel|
                lk != l && (#[trigger] assoc_get(buf.entries, lk)) is Some ==> assoc_get(
                    b2.entries,
                    lk,
                ) == assoc_get(buf.entries, lk)
        }),
    decreases v, 0nat, 0nat,
{
    match v {
        ItemModel::Array(s) => {
            lemma_stage_elems_extends(buf, s, 0);
            if crate::semantics::stage_elems_spec(buf, s, 0) is Ok {
                let r = crate::semantics::stage_elems_spec(buf, s, 0)->Ok_0;
                crate::assoc::lemma_assoc_put(r.0.entries, l, ItemModel::Array(r.1));
                lemma_put_bounded(r.0, l, ItemModel::Array(r.1));
                let b2 = buf_put(r.0, l, ItemModel::Array(r.1));
                assert forall|lk: LinkModel|
                    lk != l && (#[trigger] assoc_get(buf.entries, lk)) is Some implies assoc_get(
                    b2.entries,
                    lk,
                ) == assoc_get(buf.entries, lk) by {
                    assert(assoc_get(r.0.entries, lk) == assoc_get(buf.entries, lk));
                }
            }
        },
        ItemModel::Table(es) => {
            lemma_stage_entries_extends(buf, es, 0);
            if crate::semantics::stage_entries_spec(buf, es, 0) is Ok {
                let r = crate::semantics::stage_entries_spec(buf, es, 0)->Ok_0;
                crate::assoc::lemma_assoc_put(r.0.entries, l, ItemModel::Table(r.1));
                lemma_put_bounded(r.0, l, ItemModel::Table(r.1));
                let b2 = buf_put(r.0, l, ItemModel::Table(r.1));
                assert forall|lk: LinkModel|
                    lk != l && (#[trigger] assoc_get(buf.entries, lk)) is Some implies assoc_get(
                    b2.entries,
                    lk,
                ) == assoc_get(buf.entries, lk) by {
                    assert(assoc_get(r.0.entries, lk) == assoc_get(buf.entries, lk));
                }
            }
        },
        _ => {
            crate::assoc::lemma_assoc_put(buf.entries, l, v);
            lemma_put_bounded(buf, l, v);
        },
    }
}

/// Staging a value into a collection extends a bounded buffer: the value goes
/// under a fresh link, no existing binding is overwritten, and the buffer
/// stays bounded.
pub proof fn lemma_stage_extends(buf: crate::model::BufferModel, name: Seq<char>, v: ItemModel)
    requires
        buf_bounded(buf),
    ensures
        crate::semantics::stage_spec(buf, name, v) is Ok ==> ({
            let r = crate::semantics::stage_spec(buf, name, v)->Ok_0;
            &&& r.0.next_id >= buf.next_id
            &&& buf_bounded(r.0)
            &&& entries_extend(buf.entries, r.0.entries)
        }),
    decreases v, 1nat, 0nat,
{
    if !(v is Deleted) && buf.next_id < u64::MAX {
        let l = LinkModel { prefix: name, id: buf.next_id };
        let b1 = crate::model::BufferModel { next_id: (buf.next_id + 1) as u64, ..buf };
        assert(buf_bounded(b1));
        lemma_fresh_unbound(buf, l);
        lemma_stage_at_extends(b1, l, v);
        if crate::semantics::stage_at_spec(b1, l, v) is Ok {
            let b2 = crate::semantics::stage_at_spec(b1, l, v)->Ok_0;
            assert forall|lk: LinkModel| (#[trigger] assoc_get(buf.entries, lk)) is Some implies
                assoc_get(b2.entries, lk) == assoc_get(buf.entries, lk) by {
                assert(lk != l);
            }
        }
    }
}

/// Staging an array's elements from index `i` on extends a bounded buffer.
pub proof fn lemma_stage_elems_extends(
    buf: crate::model::BufferModel,
    s: Seq<ItemModel>,
    i: int,
)
    requires
        buf_bounded(buf),
        0 <= i <= s.len(),
    ensures
        crate::semantics::stage_elems_spec(buf, s, i) is Ok ==> ({
            let r = crate::semantics::stage_elems_spec(buf, s, i)->Ok_0;
            &&& r.0.next_id >= buf.next_id
            &&& buf_bounded(r.0)
            &&& entries_extend(buf.entries, r.0.entries)
        }),
    decreases s, s.len() - i, 2nat,
{
    if i >= s.len() {
        assert(entries_extend(buf.entries, buf.entries));
    } else {
        lemma_stage_extends(buf, crate::semantics::internal_name(), s[i]);
        if crate::semantics::stage_spec(buf, crate::semantics::internal_name(), s[i]) is Ok {
            let ra = crate::semantics::stage_spec(
                buf,
                crate::semantics::internal_name(),
                s[i],
            )->Ok_0;
            lemma_stage_elems_extends(ra.0, s, i + 1);
            if crate::semantics::stage_elems_spec(ra.0, s, i + 1) is Ok {
                let rb = crate::semantics::stage_elems_spec(ra.0, s, i + 1)->Ok_0;
                lemma_extend_trans(buf.entries, ra.0.entries, rb.0.entries);
            }
        }
    }
}

/// Staging a mapping's entry values from index `i` on extends a bounded
/// buffer.
pub proof fn lemma_stage_entries_extends(
    buf: crate::model::BufferModel,
    es: Seq<(Seq<char>, ItemModel)>,
    i: int,
)
    requires
        buf_bounded(buf),
        0 <= i <= es.len(),
    ensures
        crate::semantics::stage_entries_spec(buf, es, i) is Ok ==> ({
            let r = crate::semantics::stage_entries_spec(buf, es, i)->Ok_0;
            &&& r.0.next_id >= buf.next_id
            &&& buf_bounded(r.0)
            &&& entries_extend(buf.entries, r.0.entries)
        }),
    decreases es, es.len() - i, 2nat,
{
    if i >= es.len() {
        assert(entries_extend(buf.entries, buf.entries));
    } else {
        lemma_stage_extends(buf, crate::semantics::internal_name(), es[i].1);
        if crate::semantics::stage_spec(buf, crate::semantics::internal_name(), es[i].1) is Ok {
            let ra = crate::semantics::stage_spec(
                buf,
                crate::semantics::internal_name(),
                es[i].1,
            )->Ok_0;
            lemma_stage_entries_extends(ra.0, es, i + 1);
            if crate::semantics::stage_entries_spec(ra.0, es, i + 1) is Ok {
                let rb = crate::semantics::stage_entries_spec(ra.0, es, i + 1)->Ok_0;
                lemma_extend_trans(buf.entries, ra.0.entries, rb.0.entries);
            }
        }
    }
}

/// Back-track consistency through a whole committed delete: after the commit
/// stores the tombstone under `m`, whose stored value was the mapping
/// `{k: x}`, the back-track index of `x`'s row no longer holds an entry for
/// `m`, and `m`'s own row is gone.  The validity conditions (rows and
/// back-track entries keyed uniquely) are the ones every committed store
/// maintains.
pub proof fn lemma_commit_retracts_reference(
    colls: Seq<CollectionModel>,
    m: LinkModel,
    k: Seq<char>,
    x: LinkModel,
)
    requires
        x != m,
        crate::model::coll_index_of(colls, m.prefix) >= 0,
        assoc_get(colls[crate::model::coll_index_of(colls, m.prefix)].rows, m) is Some,
        assoc_get(
            colls[crate::model::coll_index_of(colls, m.prefix)].rows,
            m,
        )->0.item == ItemModel::Table(seq![(k, ItemModel::LinkTo(x))]),
        crate::assoc::assoc_unique(colls[crate::model::coll_index_of(colls, m.prefix)].rows),
        crate::model::coll_index_of(colls, x.prefix) >= 0,
        assoc_get(colls[crate::model::coll_index_of(colls, x.prefix)].rows, x) is Some,
        crate::assoc::assoc_unique(
            assoc_get(
                colls[crate::model::coll_index_of(colls, x.prefix)].rows,
                x,
            )->0.back_track,
        ),
    ensures
        crate::semantics::commit_one(colls, m, ItemModel::Deleted) is Ok,
        ({
            let c2 = crate::semantics::commit_one(colls, m, ItemModel::Deleted)->Ok_0;
            let cix = crate::model::coll_index_of(c2, x.prefix);
            &&& cix >= 0
            &&& assoc_get(c2[cix].rows, x) is Some
            &&& assoc_get(assoc_get(c2[cix].rows, x)->0.back_track, m) is None
            &&& assoc_get(c2[crate::model::coll_index_of(c2, m.prefix)].rows, m) is None
        }),
{
    let es = seq![(k, ItemModel::LinkTo(x))];
    let cim = crate::model::coll_index_of(colls, m.prefix);
    let cix = crate::model::coll_index_of(colls, x.prefix);
    crate::model::lemma_coll_index_of(colls, m.prefix);
    crate::model::lemma_coll_index_of(colls, x.prefix);
    let colls1 = crate::semantics::ensure_coll(colls, m.prefix);
    assert(colls1 == colls);
    let colls2 = colls.update(
        cim,
        (CollectionModel {
            log: colls[cim].log.push((m, ItemModel::Deleted)),
            ..colls[cim]
        }),
    );
    assert(colls2.len() == colls.len());
    assert forall|j: int| 0 <= j < colls.len() implies (#[trigger] colls[j]).name == colls2[j].name
        by {}
    crate::model::lemma_coll_index_same_names(colls, colls2, m.prefix);
    crate::model::lemma_coll_index_same_names(colls, colls2, x.prefix);
    assert(colls2[cix].rows == colls[cix].rows);
    assert(colls2[cim].rows == colls[cim].rows);
    // the overwritten value's references are retracted
    assert(es[0].1 == ItemModel::LinkTo(x));
    let colls3 = crate::semantics::retract_one(colls2, m, x);
    assert(crate::semantics::retract_entries(colls3, m, es, 1) == colls3);
    assert(crate::semantics::retract_item(
        colls2,
        m,
        ItemModel::Table(es),
    ) == colls3);
    lemma_back_track_retracted(colls2, x, m);
    assert(colls3.len() == colls2.len());
    assert forall|j: int| 0 <= j < colls2.len() implies (#[trigger] colls2[j]).name
        == colls3[j].name by {
        if j == crate::model::coll_index_of(colls2, x.prefix) {
        }
    }
    crate::model::lemma_coll_index_same_names(colls2, colls3, m.prefix);
    crate::model::lemma_coll_index_same_names(colls2, colls3, x.prefix);
    // m's row survives the retraction: only x's row was rewritten
    let row_x2 = assoc_get(colls2[cix].rows, x)->0;
    if cix == cim {
        crate::assoc::lemma_assoc_put(
            colls2[cix].rows,
            x,
            (crate::model::RowModel {
                item: row_x2.item,
                back_track: crate::assoc::assoc_remove(row_x2.back_track, m),
            }),
        );
    }
    assert(assoc_get(colls3[cim].rows, m) == assoc_get(colls2[cim].rows, m));
    // the tombstone purges m's row
    let c2 = colls3.update(
        cim,
        (CollectionModel {
            rows: crate::assoc::assoc_remove(colls3[cim].rows, m),
            ..colls3[cim]
        }),
    );
    assert(crate::semantics::commit_one(colls, m, ItemModel::Deleted) == Ok::<
        Seq<CollectionModel>,
        DBError,
    >(c2));
    assert(c2.len() == colls3.len());
    assert forall|j: int| 0 <= j < colls3.len() implies (#[trigger] colls3[j]).name == c2[j].name
        by {}
    crate::model::lemma_coll_index_same_names(colls3, c2, m.prefix);
    crate::model::lemma_coll_index_same_names(colls3, c2, x.prefix);
    if cix == cim {
        crate::assoc::lemma_assoc_put_unique(
            colls2[cix].rows,
            x,
            (crate::model::RowModel {
                item: row_x2.item,
                back_track: crate::assoc::assoc_remove(row_x2.back_track, m),
            }),
        );
        crate::assoc::lemma_assoc_remove(colls3[cim].rows, m);
    } else {
        crate::assoc::lemma_assoc_remove(colls3[cim].rows, m);
        assert(c2[cix] == colls3[cix]);
    }
}
} // verus!
