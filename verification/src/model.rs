//! Mathematical models of the store.  Every executable structure in the crate
//! has a view into these types; contracts are stated over them.

use vstd::prelude::*;

verus! {

/// Model of a link: the name of the owning collection plus the identifier
/// that is unique within it.
#[verifier::ext_equal]
pub struct LinkModel {
    pub prefix: Seq<char>,
    pub id: u64,
}

/// Model of an item: the single value type flowing through the system.
/// `Array` and `Table` are the two container shapes; `Table` keeps its
/// entries in insertion order.
#[verifier::ext_equal]
pub enum ItemModel {
    LinkTo(LinkModel),
    Text(Seq<char>),
    Number(i64),
    Flag(bool),
    Null,
    Deleted,
    Array(Seq<ItemModel>),
    Table(Seq<(Seq<char>, ItemModel)>),
}

/// Model of the location, inside a referencing item, where a reference to
/// another item lives: a table key, an array index, or the root of the item.
#[verifier::ext_equal]
pub enum PathModel {
    AtKey(Seq<char>),
    AtIndex(usize),
    AtRoot,
}

/// Model of one path-navigation segment.
#[verifier::ext_equal]
pub enum PathSegModel {
    Key(Seq<char>),
    Index(usize),
}

/// Model of one stored row: the item plus its back-track index, which maps
/// every referencing link to the path at which the reference lives.
#[verifier::ext_equal]
pub struct RowModel {
    pub item: ItemModel,
    pub back_track: Seq<(LinkModel, PathModel)>,
}

/// Model of a collection: its name, the append-only log of committed records
/// (mirroring the backing file), and the authoritative row map.
#[verifier::ext_equal]
pub struct CollectionModel {
    pub name: Seq<char>,
    pub log: Seq<(LinkModel, ItemModel)>,
    pub rows: Seq<(LinkModel, RowModel)>,
}

/// Model of a transaction's staging buffer: writes not yet durable (in
/// staging order), the collections marked for dropping, the changed flag,
/// and the next fresh link identifier.
#[verifier::ext_equal]
pub struct BufferModel {
    pub entries: Seq<(LinkModel, ItemModel)>,
    pub dropped: Seq<Seq<char>>,
    pub changed: bool,
    pub next_id: u64,
}

/// Model of the whole store: the open collections and the next fresh link
/// identifier.
#[verifier::ext_equal]
pub struct StoreModel {
    pub collections: Seq<CollectionModel>,
    pub next_id: u64,
}

/// Index of the collection named `name`, or `-1`.
pub open spec fn coll_index_of(s: Seq<CollectionModel>, name: Seq<char>) -> int
    decreases s.len(),
{
    if s.len() == 0 {
        -1
    } else if s[0].name == name {
        0
    } else {
        let r = coll_index_of(s.drop_first(), name);
        if r == -1 {
            -1
        } else {
            r + 1
        }
    }
}

/// The collection named `name`, if it is open.
pub open spec fn colls_get(s: Seq<CollectionModel>, name: Seq<char>) -> Option<CollectionModel> {
    let i = coll_index_of(s, name);
    if i == -1 {
        None
    } else {
        Some(s[i])
    }
}

/// `coll_index_of` finds the first collection with the given name.
pub proof fn lemma_coll_index_of(s: Seq<CollectionModel>, name: Seq<char>)
    ensures
        -1 <= coll_index_of(s, name) < s.len(),
        coll_index_of(s, name) == -1 ==> forall|j: int| 0 <= j < s.len() ==> (#[trigger] s[j]).name
            != name,
        coll_index_of(s, name) >= 0 ==> s[coll_index_of(s, name)].name == name && forall|j: int|
            0 <= j < coll_index_of(s, name) ==> (#[trigger] s[j]).name != name,
    decreases s.len(),
{
    if s.len() > 0 && s[0].name != name {
        let t = s.drop_first();
        lemma_coll_index_of(t, name);
        let r = coll_index_of(t, name);
        if r == -1 {
            assert forall|j: int| 0 <= j < s.len() implies (#[trigger] s[j]).name != name by {
                if j > 0 {
                    assert(t[j - 1] == s[j]);
                }
            }
        } else {
            assert(s[r + 1] == t[r]);
            assert forall|j: int| 0 <= j < r + 1 implies (#[trigger] s[j]).name != name by {
                if j > 0 {
                    assert(t[j - 1] == s[j]);
                }
            }
        }
    }
}

/// Two collection sequences with the same names agree on every index.
pub proof fn lemma_coll_index_same_names(
    a: Seq<CollectionModel>,
    b: Seq<CollectionModel>,
    name: Seq<char>,
)
    requires
        a.len() == b.len(),
        forall|j: int| 0 <= j < a.len() ==> (#[trigger] a[j]).name == b[j].name,
    ensures
        coll_index_of(a, name) == coll_index_of(b, name),
{
    lemma_coll_index_of(a, name);
    let i = coll_index_of(a, name);
    if i == -1 {
        lemma_coll_index_of(b, name);
        if coll_index_of(b, name) >= 0 {
            assert(a[coll_index_of(b, name)].name == name);
        }
    } else {
        assert forall|j: int| 0 <= j < i implies (#[trigger] b[j]).name != name by {
            assert(a[j].name == b[j].name);
        }
        lemma_coll_index_unique(b, name, i);
    }
}

/// A matching position preceded by no match is the one `coll_index_of` finds.
pub proof fn lemma_coll_index_unique(s: Seq<CollectionModel>, name: Seq<char>, n: int)
    requires
        0 <= n < s.len(),
        s[n].name == name,
        forall|j: int| 0 <= j < n ==> (#[trigger] s[j]).name != name,
    ensures
        coll_index_of(s, name) == n,
{
    lemma_coll_index_of(s, name);
}

} // verus!
