//! The universal value type.  An `Item` is a scalar or link primitive, an
//! ordered `Vector`, or a key-ordered `Mapping`.  Items are immutable values:
//! mutation is always expressed as producing a new item and writing it under
//! a link.

use vstd::prelude::*;

use crate::assoc::{
    assoc_get, assoc_index_of, assoc_put, lemma_assoc_index_none, lemma_assoc_index_of,
    lemma_assoc_index_unique, lemma_assoc_put,
};
use crate::link::Link;
use crate::model::ItemModel;

verus! {

/// The scalar and link primitives.
#[derive(Debug)]
pub enum Primitive {
    Link(Link),
    StringPrimitive(String),
    NumberPrimitive(i64),
    BoolPrimitive(bool),
    NullPrimitive,
    DeletedPrimitive,
}

impl View for Primitive {
    type V = ItemModel;

    open spec fn view(&self) -> ItemModel {
        match self {
            Primitive::Link(l) => ItemModel::LinkTo(l@),
            Primitive::StringPrimitive(s) => ItemModel::Text(s@),
            Primitive::NumberPrimitive(n) => ItemModel::Number(*n),
            Primitive::BoolPrimitive(b) => ItemModel::Flag(*b),
            Primitive::NullPrimitive => ItemModel::Null,
            Primitive::DeletedPrimitive => ItemModel::Deleted,
        }
    }
}

impl Primitive {
    /// A copy denoting the same value.
    pub fn dup(&self) -> (r: Primitive)
        ensures
            r@ == self@,
    {
        match self {
            Primitive::Link(l) => Primitive::Link(l.clone()),
            Primitive::StringPrimitive(s) => Primitive::StringPrimitive(s.clone()),
            Primitive::NumberPrimitive(n) => Primitive::NumberPrimitive(*n),
            Primitive::BoolPrimitive(b) => Primitive::BoolPrimitive(*b),
            Primitive::NullPrimitive => Primitive::NullPrimitive,
            Primitive::DeletedPrimitive => Primitive::DeletedPrimitive,
        }
    }

    /// Whether two primitives denote the same value.
    pub fn same_value(&self, other: &Primitive) -> (r: bool)
        ensures
            r == (self@ == other@),
    {
        match (self, other) {
            (Primitive::Link(a), Primitive::Link(b)) => a.same_link(b),
            (Primitive::StringPrimitive(a), Primitive::StringPrimitive(b)) => *a == *b,
            (Primitive::NumberPrimitive(a), Primitive::NumberPrimitive(b)) => a == b,
            (Primitive::BoolPrimitive(a), Primitive::BoolPrimitive(b)) => a == b,
            (Primitive::NullPrimitive, Primitive::NullPrimitive) => true,
            (Primitive::DeletedPrimitive, Primitive::DeletedPrimitive) => true,
            _ => false,
        }
    }
}

impl Clone for Primitive {
    fn clone(&self) -> (r: Self)
        ensures
            r@ == self@,
    {
        self.dup()
    }
}

/// The single value type flowing through the whole system.
#[derive(Debug)]
pub enum Item {
    Primitive(Primitive),
    Vector(Vec<Item>),
    Mapping(Vec<(String, Item)>),
}

/// Model of a vector's elements.
pub open spec fn elems_model(s: Seq<Item>) -> Seq<ItemModel>
    decreases s,
{
    Seq::new(
        s.len(),
        |i: int|
            if 0 <= i < s.len() {
                item_model(s[i])
            } else {
                ItemModel::Null
            },
    )
}

/// Model of a mapping's entries, in insertion order.
pub open spec fn entries_model(s: Seq<(String, Item)>) -> Seq<(Seq<char>, ItemModel)>
    decreases s,
{
    Seq::new(
        s.len(),
        |i: int|
            if 0 <= i < s.len() {
                (s[i].0@, item_model(s[i].1))
            } else {
                (Seq::<char>::empty(), ItemModel::Null)
            },
    )
}

/// Model of an item.
pub open spec fn item_model(item: Item) -> ItemModel
    decreases item,
{
    match item {
        Item::Primitive(p) => p@,
        Item::Vector(v) => ItemModel::Array(elems_model(v@)),
        Item::Mapping(m) => ItemModel::Table(entries_model(m@)),
    }
}

impl View for Item {
    type V = ItemModel;

    open spec fn view(&self) -> ItemModel {
        item_model(*self)
    }
}

impl Item {
    /// A copy denoting the same value.
    #[verifier::loop_isolation(false)]
    pub fn dup(&self) -> (r: Item)
        ensures
            r@ == self@,
        decreases *self,
    {
        match self {
            Item::Primitive(p) => Item::Primitive(p.dup()),
            Item::Vector(v) => {
                let mut out: Vec<Item> = Vec::new();
                let mut i: usize = 0;
                while i < v.len()
                    invariant
                        0 <= i <= v.len(),
                        out@.len() == i,
                        forall|j: int| 0 <= j < i ==> (#[trigger] out@[j])@ == v@[j]@,
                    decreases v.len() - i,
                {
                    proof {
                        assert(decreases_to!(*self => *v));
                        assert(decreases_to!(*v => v[i as int]));
                    }
                    out.push(v[i].dup());
                    i += 1;
                }
                proof {
                    assert(elems_model(out@) =~= elems_model(v@));
                }
                Item::Vector(out)
            },
            Item::Mapping(m) => {
                let mut out: Vec<(String, Item)> = Vec::new();
                let mut i: usize = 0;
                while i < m.len()
                    invariant
                        0 <= i <= m.len(),
                        out@.len() == i,
                        forall|j: int|
                            0 <= j < i ==> (#[trigger] out@[j]).0@ == m@[j].0@ && out@[j].1@
                                == m@[j].1@,
                    decreases m.len() - i,
                {
                    proof {
                        assert(decreases_to!(*self => *m));
                        assert(decreases_to!(*m => m[i as int]));
                        assert(decreases_to!(m[i as int] => m[i as int].1));
                    }
                    let entry = &m[i];
                    out.push((entry.0.clone(), entry.1.dup()));
                    i += 1;
                }
                proof {
                    assert(entries_model(out@) =~= entries_model(m@));
                }
                Item::Mapping(out)
            },
        }
    }

    /// Whether two items denote the same value.
    #[verifier::loop_isolation(false)]
    pub fn deep_eq(&self, other: &Item) -> (r: bool)
        ensures
            r == (self@ == other@),
        decreases *self,
    {
        match (self, other) {
            (Item::Primitive(a), Item::Primitive(b)) => a.same_value(b),
            (Item::Vector(a), Item::Vector(b)) => {
                if a.len() != b.len() {
                    proof {
                        assert(elems_model(a@).len() == a@.len());
                        assert(elems_model(b@).len() == b@.len());
                    }
                    return false;
                }
                let mut i: usize = 0;
                while i < a.len()
                    invariant
                        0 <= i <= a.len(),
                        a@.len() == b@.len(),
                        forall|j: int| 0 <= j < i ==> (#[trigger] a@[j])@ == b@[j]@,
                    decreases a.len() - i,
                {
                    proof {
                        assert(decreases_to!(*self => *a));
                        assert(decreases_to!(*a => a[i as int]));
                    }
                    if !a[i].deep_eq(&b[i]) {
                        proof {
                            assert(elems_model(a@)[i as int] != elems_model(b@)[i as int]);
                        }
                        return false;
                    }
                    i += 1;
                }
                proof {
                    assert(elems_model(a@) =~= elems_model(b@));
                }
                true
            },
            (Item::Mapping(a), Item::Mapping(b)) => {
                if a.len() != b.len() {
                    proof {
                        assert(entries_model(a@).len() == a@.len());
                        assert(entries_model(b@).len() == b@.len());
                    }
                    return false;
                }
                let mut i: usize = 0;
                while i < a.len()
                    invariant
                        0 <= i <= a.len(),
                        a@.len() == b@.len(),
                        forall|j: int|
                            0 <= j < i ==> (#[trigger] a@[j]).0@ == b@[j].0@ && a@[j].1@
                                == b@[j].1@,
                    decreases a.len() - i,
                {
                    proof {
                        assert(decreases_to!(*self => *a));
                        assert(decreases_to!(*a => a[i as int]));
                        assert(decreases_to!(a[i as int] => a[i as int].1));
                    }
                    let x = &a[i];
                    let y = &b[i];
                    if !(x.0 == y.0) {
                        proof {
                            assert(entries_model(a@)[i as int] != entries_model(b@)[i as int]);
                        }
                        return false;
                    }
                    if !x.1.deep_eq(&y.1) {
                        proof {
                            assert(entries_model(a@)[i as int] != entries_model(b@)[i as int]);
                        }
                        return false;
                    }
                    i += 1;
                }
                proof {
                    assert(entries_model(a@) =~= entries_model(b@));
                }
                true
            },
            _ => false,
        }
    }
}

impl Clone for Item {
    fn clone(&self) -> (r: Self)
        ensures
            r@ == self@,
    {
        self.dup()
    }
}

impl PartialEq for Item {
    fn eq(&self, other: &Self) -> (r: bool) {
        self.deep_eq(other)
    }
}

impl vstd::std_specs::cmp::PartialEqSpecImpl for Item {
    open spec fn obeys_eq_spec() -> bool {
        true
    }

    open spec fn eq_spec(&self, other: &Item) -> bool {
        self@ == other@
    }
}

impl PartialEq for Primitive {
    fn eq(&self, other: &Self) -> (r: bool) {
        self.same_value(other)
    }
}

impl vstd::std_specs::cmp::PartialEqSpecImpl for Primitive {
    open spec fn obeys_eq_spec() -> bool {
        true
    }

    open spec fn eq_spec(&self, other: &Primitive) -> bool {
        self@ == other@
    }
}

/// The entry of `entries` bound to `key` (first match).
#[verifier::loop_isolation(false)]
pub fn table_lookup<'a>(entries: &'a Vec<(String, Item)>, key: &String) -> (r: Option<&'a Item>)
    ensures
        match r {
            Some(v) => assoc_get(entries_model(entries@), key@) == Some(v@),
            None => assoc_get(entries_model(entries@), key@) is None,
        },
{
    let ghost s = entries_model(entries@);
    let mut i: usize = 0;
    while i < entries.len()
        invariant
            0 <= i <= entries.len(),
            s == entries_model(entries@),
            forall|j: int| 0 <= j < i ==> (#[trigger] s[j]).0 != key@,
        decreases entries.len() - i,
    {
        if entries[i].0 == *key {
            proof {
                lemma_assoc_index_unique(s, key@, i as int);
            }
            return Some(&entries[i].1);
        }
        i += 1;
    }
    proof {
        lemma_assoc_index_none(s, key@);
    }
    None
}

/// A copy of `entries` with `key` bound to `value`: the first pair keyed by
/// `key` is replaced, or the pair is appended when `key` is absent.
#[verifier::loop_isolation(false)]
pub fn table_put(entries: &Vec<(String, Item)>, key: &String, value: &Item) -> (r: Vec<
    (String, Item),
>)
    ensures
        entries_model(r@) == assoc_put(entries_model(entries@), key@, value@),
{
    let ghost s = entries_model(entries@);
    proof {
        lemma_assoc_index_of(s, key@);
    }
    let ghost i0 = assoc_index_of(s, key@);
    let mut out: Vec<(String, Item)> = Vec::new();
    let mut found: bool = false;
    let mut i: usize = 0;
    while i < entries.len()
        invariant
            0 <= i <= entries.len(),
            s == entries_model(entries@),
            i0 == assoc_index_of(s, key@),
            -1 <= i0 < s.len(),
            i0 >= 0 ==> s[i0].0 == key@ && forall|j: int| 0 <= j < i0 ==> (#[trigger] s[j]).0
                != key@,
            i0 == -1 ==> forall|j: int| 0 <= j < s.len() ==> (#[trigger] s[j]).0 != key@,
            found <==> (i0 >= 0 && i > i0),
            out@.len() == i,
            forall|j: int|
                0 <= j < i && j != i0 ==> (#[trigger] out@[j]).0@ == s[j].0 && out@[j].1@
                    == s[j].1,
            i0 >= 0 && i > i0 ==> out@[i0].0@ == key@ && out@[i0].1@ == value@,
        decreases entries.len() - i,
    {
        let entry = &entries[i];
        if !found && entry.0 == *key {
            proof {
                lemma_assoc_index_unique(s, key@, i as int);
            }
            out.push((key.clone(), value.dup()));
            found = true;
        } else {
            out.push((entry.0.clone(), entry.1.dup()));
        }
        i += 1;
    }
    if !found {
        out.push((key.clone(), value.dup()));
        proof {
            let t = s.push((key@, value@));
            assert forall|j: int| 0 <= j < t.len() implies entries_model(out@)[j] == t[j] by {
                if j < s.len() {
                    assert(t[j] == s[j]);
                    assert((s[j].0, s[j].1) == s[j]);
                }
            }
            assert(entries_model(out@) =~= t);
        }
    } else {
        proof {
            let t = s.update(i0, (key@, value@));
            assert forall|j: int| 0 <= j < t.len() implies entries_model(out@)[j] == t[j] by {
                if j != i0 {
                    assert(t[j] == s[j]);
                    assert((s[j].0, s[j].1) == s[j]);
                }
            }
            assert(entries_model(out@) =~= t);
        }
    }
    out
}

/// A copy of `elems` with position `index` replaced by `value`.
#[verifier::loop_isolation(false)]
pub fn vector_put(elems: &Vec<Item>, index: usize, value: &Item) -> (r: Vec<Item>)
    requires
        index < elems@.len(),
    ensures
        elems_model(r@) == elems_model(elems@).update(index as int, value@),
{
    let mut out: Vec<Item> = Vec::new();
    let mut i: usize = 0;
    while i < elems.len()
        invariant
            0 <= i <= elems.len(),
            index < elems@.len(),
            out@.len() == i,
            forall|j: int| 0 <= j < i && j != index ==> (#[trigger] out@[j])@ == elems@[j]@,
            i > index ==> out@[index as int]@ == value@,
        decreases elems.len() - i,
    {
        if i == index {
            out.push(value.dup());
        } else {
            out.push(elems[i].dup());
        }
        i += 1;
    }
    proof {
        assert(elems_model(out@) =~= elems_model(elems@).update(index as int, value@));
    }
    out
}

} // verus!
