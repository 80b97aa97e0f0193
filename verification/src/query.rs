//! The query grammar: each query operation is carried by a typed query value
//! (built by an external deserializer), and a transaction is an ordered
//! sequence of steps, each naming a target collection and holding an ordered
//! sequence of query items.

use vstd::prelude::*;

use crate::errors::DBError;
use crate::item::{elems_model, Item, Primitive};
use crate::link::{Link, PathToValue};
use crate::model::{BufferModel, CollectionModel, ItemModel, LinkModel, PathSegModel};
use crate::ops::{successors, successors_spec, QueryOperation};
use crate::semantics::{
    fetch_spec, find_sub_spec, internal_name, skip_links_spec, stage_at_spec, stage_spec,
    FoundSubModel,
};
use crate::views::links_model;

verus! {

/// The items to insert into the target collection.
#[derive(Debug)]
pub struct InsertQuery {
    pub items: Vec<Item>,
}

impl View for InsertQuery {
    type V = Seq<ItemModel>;

    open spec fn view(&self) -> Seq<ItemModel> {
        elems_model(self.items@)
    }
}

impl InsertQuery {
    pub fn next_available(&self) -> (r: Vec<QueryOperation>)
        ensures
            r@ == successors_spec(QueryOperation::InsertOperation),
    {
        successors(QueryOperation::InsertOperation)
    }
}

/// Conditions of a find: each names a key of the stored root and the
/// primitive value it must hold.
#[derive(Debug)]
pub struct FindQuery {
    pub conditions: Vec<(String, Primitive)>,
}

impl View for FindQuery {
    type V = Seq<(Seq<char>, ItemModel)>;

    open spec fn view(&self) -> Seq<(Seq<char>, ItemModel)> {
        Seq::new(self.conditions@.len(), |i: int| (self.conditions@[i].0@, self.conditions@[i].1@))
    }
}

impl FindQuery {
    pub fn next_available(&self) -> (r: Vec<QueryOperation>)
        ensures
            r@ == successors_spec(QueryOperation::FindOperation),
    {
        successors(QueryOperation::FindOperation)
    }
}

/// The links to load into the working set.
#[derive(Debug)]
pub struct GetQuery {
    pub links: Vec<Link>,
}

impl View for GetQuery {
    type V = Seq<LinkModel>;

    open spec fn view(&self) -> Seq<LinkModel> {
        links_model(self.links@)
    }
}

impl GetQuery {
    pub fn next_available(&self) -> (r: Vec<QueryOperation>)
        ensures
            r@ == successors_spec(QueryOperation::GetOperation),
    {
        successors(QueryOperation::GetOperation)
    }
}

/// Where a set operator writes: the matched item's root, or a path into it.
#[derive(Debug)]
pub enum SetTarget {
    RootTarget,
    PathTarget(PathToValue),
}

/// Model of a set target.
pub enum SetTargetModel {
    RootT,
    PathT(Seq<PathSegModel>),
}

impl View for SetTarget {
    type V = SetTargetModel;

    open spec fn view(&self) -> SetTargetModel {
        match self {
            SetTarget::RootTarget => SetTargetModel::RootT,
            SetTarget::PathTarget(p) => SetTargetModel::PathT(p@),
        }
    }
}

/// One set operator: an ordered list of `(target, new value)` writes.
#[derive(Debug)]
pub struct SetOperator {
    pub values: Vec<(SetTarget, Item)>,
}

impl View for SetOperator {
    type V = Seq<(SetTargetModel, ItemModel)>;

    open spec fn view(&self) -> Seq<(SetTargetModel, ItemModel)> {
        Seq::new(self.values@.len(), |i: int| (self.values@[i].0@, self.values@[i].1@))
    }
}

/// The set operators applied to every matched item.
#[derive(Debug)]
pub struct UpdateQuery {
    pub operators: Vec<SetOperator>,
}

impl View for UpdateQuery {
    type V = Seq<Seq<(SetTargetModel, ItemModel)>>;

    open spec fn view(&self) -> Seq<Seq<(SetTargetModel, ItemModel)>> {
        Seq::new(self.operators@.len(), |i: int| self.operators@[i]@)
    }
}

impl UpdateQuery {
    pub fn next_available(&self) -> (r: Vec<QueryOperation>)
        ensures
            r@ == successors_spec(QueryOperation::UpdateOperation),
    {
        successors(QueryOperation::UpdateOperation)
    }
}

/// Sort the working set by the number stored one key hop from each root.
#[derive(Debug)]
pub struct SortQuery {
    pub key: String,
    pub ascending: bool,
}

impl SortQuery {
    pub fn next_available(&self) -> (r: Vec<QueryOperation>)
        ensures
            r@ == successors_spec(QueryOperation::SortOperation),
    {
        successors(QueryOperation::SortOperation)
    }
}

/// Drop the collection (as a step's first item) or tombstone the matched
/// items (later in a step).
#[derive(Debug)]
pub struct DeleteQuery {}

impl DeleteQuery {
    pub fn next_available(&self) -> (r: Vec<QueryOperation>)
        ensures
            r@ == successors_spec(QueryOperation::DeleteOperation),
    {
        successors(QueryOperation::DeleteOperation)
    }
}

/// Keep only the first so-many links of the working set.
#[derive(Debug)]
pub struct LimitQuery {
    expr: Item,
}

impl View for LimitQuery {
    type V = ItemModel;

    closed spec fn view(&self) -> ItemModel {
        self.expr@
    }
}

impl LimitQuery {
    /// Accepts only a number-shaped parameter.
    pub fn new(value: Item) -> (r: Result<Self, DBError>)
        ensures
            match value@ {
                ItemModel::Number(_) => r is Ok && r->Ok_0@ == value@,
                _ => r == Err::<Self, DBError>(DBError::MalformedQuery),
            },
    {
        match &value {
            Item::Primitive(Primitive::NumberPrimitive(_)) => Ok(LimitQuery { expr: value }),
            _ => Err(DBError::MalformedQuery),
        }
    }

    pub fn get_value(&self) -> (r: &Item)
        ensures
            r@ == self@,
    {
        &self.expr
    }

    pub fn next_available(&self) -> (r: Vec<QueryOperation>)
        ensures
            r@ == successors_spec(QueryOperation::LimitOperation),
    {
        successors(QueryOperation::LimitOperation)
    }
}

/// Drop the first so-many links of the working set.
#[derive(Debug)]
pub struct OffsetQuery {
    expr: Item,
}

impl View for OffsetQuery {
    type V = ItemModel;

    closed spec fn view(&self) -> ItemModel {
        self.expr@
    }
}

impl OffsetQuery {
    /// Accepts only a number-shaped parameter.
    pub fn new(value: Item) -> (r: Result<Self, DBError>)
        ensures
            match value@ {
                ItemModel::Number(_) => r is Ok && r->Ok_0@ == value@,
                _ => r == Err::<Self, DBError>(DBError::MalformedQuery),
            },
    {
        match &value {
            Item::Primitive(Primitive::NumberPrimitive(_)) => Ok(OffsetQuery { expr: value }),
            _ => Err(DBError::MalformedQuery),
        }
    }

    pub fn get_value(&self) -> (r: &Item)
        ensures
            r@ == self@,
    {
        &self.expr
    }

    pub fn next_available(&self) -> (r: Vec<QueryOperation>)
        ensures
            r@ == successors_spec(QueryOperation::OffsetOperation),
    {
        successors(QueryOperation::OffsetOperation)
    }
}

/// One projection rule: resolve the named key of each matched root.
#[derive(Debug)]
pub struct PlainSet {
    pub key: String,
    pub value: Item,
}

impl View for PlainSet {
    type V = (Seq<char>, ItemModel);

    open spec fn view(&self) -> (Seq<char>, ItemModel) {
        (self.key@, self.value@)
    }
}

/// The checked rules of a projection.
#[derive(Debug)]
pub struct ProjectionRules {
    pub rules: Vec<PlainSet>,
}

impl View for ProjectionRules {
    type V = Seq<(Seq<char>, ItemModel)>;

    open spec fn view(&self) -> Seq<(Seq<char>, ItemModel)> {
        Seq::new(self.rules@.len(), |i: int| self.rules@[i]@)
    }
}

impl ProjectionRules {
    pub fn new() -> (r: ProjectionRules)
        ensures
            r@ == Seq::<(Seq<char>, ItemModel)>::empty(),
    {
        let r = ProjectionRules { rules: Vec::new() };
        proof {
            assert(r@ =~= Seq::<(Seq<char>, ItemModel)>::empty());
        }
        r
    }

    pub fn push_rule(&mut self, rule: PlainSet)
        ensures
            final(self)@ == old(self)@.push(rule@),
    {
        self.rules.push(rule);
        proof {
            assert(self@ =~= old(self)@.push(self.rules@[self.rules@.len() - 1]@));
        }
    }
}

/// What checking a project query's rules yields: each rule key must be a
/// string primitive; the first offender makes the whole query malformed.
pub open spec fn make_rules_spec(vals: Seq<(ItemModel, ItemModel)>, i: int) -> Result<
    Seq<(Seq<char>, ItemModel)>,
    DBError,
>
    decreases vals.len() - i,
{
    if i < 0 || i >= vals.len() {
        Ok(Seq::empty())
    } else {
        match vals[i].0 {
            ItemModel::Text(k) => match make_rules_spec(vals, i + 1) {
                Ok(rest) => Ok(seq![(k, vals[i].1)] + rest),
                Err(e) => Err(e),
            },
            _ => Err(DBError::MalformedQuery),
        }
    }
}

/// The requested keys of a projection, as `(key, rule)` pairs.
#[derive(Debug)]
pub struct ProjectQuery {
    pub values: Vec<(Primitive, Item)>,
}

impl View for ProjectQuery {
    type V = Seq<(ItemModel, ItemModel)>;

    open spec fn view(&self) -> Seq<(ItemModel, ItemModel)> {
        Seq::new(self.values@.len(), |i: int| (self.values@[i].0@, self.values@[i].1@))
    }
}

impl ProjectQuery {
    pub fn new() -> (r: ProjectQuery)
        ensures
            r@ == Seq::<(ItemModel, ItemModel)>::empty(),
    {
        let r = ProjectQuery { values: Vec::new() };
        proof {
            assert(r@ =~= Seq::<(ItemModel, ItemModel)>::empty());
        }
        r
    }

    pub fn insert(&mut self, k: Primitive, v: Item)
        ensures
            final(self)@ == old(self)@.push((k@, v@)),
    {
        self.values.push((k, v));
        proof {
            let n = self.values@.len() - 1;
            assert(self@ =~= old(self)@.push((self.values@[n].0@, self.values@[n].1@)));
        }
    }

    /// Check the rules: every key must be a string primitive.
    #[verifier::loop_isolation(false)]
    pub fn make_rules(&self) -> (r: Result<ProjectionRules, DBError>)
        ensures
            match make_rules_spec(self@, 0) {
                Ok(rules) => r is Ok && r->Ok_0@ == rules,
                Err(e) => r == Err::<ProjectionRules, DBError>(e),
            },
    {
        let mut result = ProjectionRules::new();
        let mut i: usize = 0;
        while i < self.values.len()
            invariant
                0 <= i <= self.values@.len(),
                match make_rules_spec(self@, i as int) {
                    Ok(rest) => make_rules_spec(self@, 0) is Ok && make_rules_spec(self@, 0)->Ok_0
                        == result@ + rest,
                    Err(e) => make_rules_spec(self@, 0) == Err::<
                        Seq<(Seq<char>, ItemModel)>,
                        DBError,
                    >(e),
                },
            decreases self.values@.len() - i,
        {
            let entry = &self.values[i];
            match &entry.0 {
                Primitive::StringPrimitive(k) => {
                    let ghost prev = result@;
                    let ghost kk = k@;
                    result.push_rule(PlainSet { key: k.clone(), value: entry.1.dup() });
                    proof {
                        assert(self@[i as int].0 == ItemModel::Text(kk));
                        if make_rules_spec(self@, i + 1) is Ok {
                            let rest2 = make_rules_spec(self@, i + 1)->Ok_0;
                            assert(make_rules_spec(self@, i as int)->Ok_0 == seq![
                                (kk, self@[i as int].1),
                            ] + rest2);
                            assert(prev + (seq![(kk, self@[i as int].1)] + rest2) =~= result@
                                + rest2);
                        }
                    }
                },
                _ => {
                    proof {
                        assert(self@[i as int].0 == self.values@[i as int].0@);
                    }
                    return Err(DBError::MalformedQuery);
                },
            }
            i += 1;
        }
        proof {
            assert(result@ + make_rules_spec(self@, i as int)->Ok_0 =~= result@);
        }
        Ok(result)
    }

    pub fn next_available(&self) -> (r: Vec<QueryOperation>)
        ensures
            r@ == successors_spec(QueryOperation::ProjectOperation),
    {
        successors(QueryOperation::ProjectOperation)
    }

    /// A copy denoting the same query.
    #[verifier::loop_isolation(false)]
    pub fn dup(&self) -> (r: ProjectQuery)
        ensures
            r@ == self@,
    {
        let mut values: Vec<(Primitive, Item)> = Vec::new();
        let mut i: usize = 0;
        while i < self.values.len()
            invariant
                0 <= i <= self.values@.len(),
                values@.len() == i,
                forall|j: int|
                    0 <= j < i ==> (#[trigger] values@[j]).0@ == self.values@[j].0@
                        && values@[j].1@ == self.values@[j].1@,
            decreases self.values@.len() - i,
        {
            let entry = &self.values[i];
            values.push((entry.0.dup(), entry.1.dup()));
            i += 1;
        }
        let r = ProjectQuery { values };
        proof {
            assert(r@ =~= self@);
        }
        r
    }
}

/// Accepted by the state machine; currently a placeholder with no resolving
/// effect.
#[derive(Debug)]
pub struct IndexQuery {
    pub values: Vec<(Primitive, Item)>,
}

impl IndexQuery {
    pub fn next_available(&self) -> (r: Vec<QueryOperation>)
        ensures
            r@ == successors_spec(QueryOperation::IndexOperation),
    {
        successors(QueryOperation::IndexOperation)
    }
}

/// One item of a query step.
#[derive(Debug)]
pub enum QueryItem {
    Insert(InsertQuery),
    Find(FindQuery),
    Get(GetQuery),
    Update(UpdateQuery),
    Sort(SortQuery),
    Delete(DeleteQuery),
    Limit(LimitQuery),
    Offset(OffsetQuery),
    Project(ProjectQuery),
    Index(IndexQuery),
}

/// The operation a query item performs.
pub open spec fn op_of(q: QueryItem) -> QueryOperation {
    match q {
        QueryItem::Insert(_) => QueryOperation::InsertOperation,
        QueryItem::Find(_) => QueryOperation::FindOperation,
        QueryItem::Get(_) => QueryOperation::GetOperation,
        QueryItem::Update(_) => QueryOperation::UpdateOperation,
        QueryItem::Sort(_) => QueryOperation::SortOperation,
        QueryItem::Delete(_) => QueryOperation::DeleteOperation,
        QueryItem::Limit(_) => QueryOperation::LimitOperation,
        QueryItem::Offset(_) => QueryOperation::OffsetOperation,
        QueryItem::Project(_) => QueryOperation::ProjectOperation,
        QueryItem::Index(_) => QueryOperation::IndexOperation,
    }
}

impl QueryItem {
    pub fn operation(&self) -> (r: QueryOperation)
        ensures
            r == op_of(*self),
    {
        match self {
            QueryItem::Insert(_) => QueryOperation::InsertOperation,
            QueryItem::Find(_) => QueryOperation::FindOperation,
            QueryItem::Get(_) => QueryOperation::GetOperation,
            QueryItem::Update(_) => QueryOperation::UpdateOperation,
            QueryItem::Sort(_) => QueryOperation::SortOperation,
            QueryItem::Delete(_) => QueryOperation::DeleteOperation,
            QueryItem::Limit(_) => QueryOperation::LimitOperation,
            QueryItem::Offset(_) => QueryOperation::OffsetOperation,
            QueryItem::Project(_) => QueryOperation::ProjectOperation,
            QueryItem::Index(_) => QueryOperation::IndexOperation,
        }
    }
}

/// The operations of a step's items, in order.
pub open spec fn ops_of(items: Seq<QueryItem>) -> Seq<QueryOperation> {
    Seq::new(items.len(), |i: int| op_of(items[i]))
}

/// One query step: a target collection and its ordered query items.
#[derive(Debug)]
pub struct QueryStep {
    pub collection_name: String,
    pub items: Vec<QueryItem>,
}

/// A transaction: the unit of atomicity.
#[derive(Debug)]
pub struct Transaction {
    pub steps: Vec<QueryStep>,
}

// ---------------------------------------------------------------------------
// Update semantics
// ---------------------------------------------------------------------------

/// One set-operator write against the matched item `id`: a root target stages
/// the (flattened) value under `id` itself; a path target navigates to the
/// containing link, stages the value under the internal collection, and
/// stages the rewritten container.  A path that does not resolve is a no-op.
pub open spec fn apply_set_spec(
    colls: Seq<CollectionModel>,
    buf: BufferModel,
    id: LinkModel,
    target: SetTargetModel,
    v: ItemModel,
) -> Result<BufferModel, DBError> {
    match target {
        SetTargetModel::RootT => stage_at_spec(buf, id, v),
        SetTargetModel::PathT(segs) => match find_sub_spec(colls, buf.entries, id, segs) {
            Err(e) => Err(e),
            Ok(found) => match found {
                None => Ok(buf),
                Some(fs) => match fs.container_value {
                    ItemModel::Table(es) => match fs.key {
                        PathSegModel::Key(k) => match stage_spec(buf, internal_name(), v) {
                            Err(e) => Err(e),
                            Ok((b2, li)) => Ok(
                                crate::semantics::buf_put(
                                    b2,
                                    fs.container_id,
                                    ItemModel::Table(crate::assoc::assoc_put(es, k, li)),
                                ),
                            ),
                        },
                        PathSegModel::Index(_) => Ok(buf),
                    },
                    ItemModel::Array(s) => match fs.key {
                        PathSegModel::Index(ix) => if ix < s.len() {
                            match stage_spec(buf, internal_name(), v) {
                                Err(e) => Err(e),
                                Ok((b2, li)) => Ok(
                                    crate::semantics::buf_put(
                                        b2,
                                        fs.container_id,
                                        ItemModel::Array(s.update(ix as int, li)),
                                    ),
                                ),
                            }
                        } else {
                            Ok(buf)
                        },
                        PathSegModel::Key(_) => Ok(buf),
                    },
                    _ => Ok(buf),
                },
            },
        },
    }
}

/// Apply the writes of one set operator (from index `i` on) to `id`.
pub open spec fn update_ops_spec(
    colls: Seq<CollectionModel>,
    buf: BufferModel,
    id: LinkModel,
    ops: Seq<(SetTargetModel, ItemModel)>,
    i: int,
) -> Result<BufferModel, DBError>
    decreases ops.len() - i,
{
    if i < 0 || i >= ops.len() {
        Ok(buf)
    } else {
        match apply_set_spec(colls, buf, id, ops[i].0, ops[i].1) {
            Err(e) => Err(e),
            Ok(b2) => update_ops_spec(colls, b2, id, ops, i + 1),
        }
    }
}

/// Apply every set operator (from index `i` on) to `id`.
pub open spec fn update_operators_spec(
    colls: Seq<CollectionModel>,
    buf: BufferModel,
    id: LinkModel,
    operators: Seq<Seq<(SetTargetModel, ItemModel)>>,
    i: int,
) -> Result<BufferModel, DBError>
    decreases operators.len() - i,
{
    if i < 0 || i >= operators.len() {
        Ok(buf)
    } else {
        match update_ops_spec(colls, buf, id, operators[i], 0) {
            Err(e) => Err(e),
            Ok(b2) => update_operators_spec(colls, b2, id, operators, i + 1),
        }
    }
}

/// Apply every set operator to every matched link (from index `i` on).
pub open spec fn update_ids_spec(
    colls: Seq<CollectionModel>,
    buf: BufferModel,
    ids: Seq<LinkModel>,
    operators: Seq<Seq<(SetTargetModel, ItemModel)>>,
    i: int,
) -> Result<BufferModel, DBError>
    decreases ids.len() - i,
{
    if i < 0 || i >= ids.len() {
        Ok(buf)
    } else {
        match update_operators_spec(colls, buf, ids[i], operators, 0) {
            Err(e) => Err(e),
            Ok(b2) => update_ids_spec(colls, b2, ids, operators, i + 1),
        }
    }
}

// ---------------------------------------------------------------------------
// Projection semantics
// ---------------------------------------------------------------------------

/// Resolve the requested keys (from index `i` on) against `root`: each key's
/// stored link is fully dereferenced; a missing key or a non-table root reads
/// as `Null`.
pub open spec fn resolve_keys_spec(
    colls: Seq<CollectionModel>,
    buf: Seq<(LinkModel, ItemModel)>,
    root: ItemModel,
    rules: Seq<(Seq<char>, ItemModel)>,
    counter: u64,
    i: int,
) -> Result<Seq<(Seq<char>, ItemModel)>, DBError>
    decreases rules.len() - i,
{
    if i < 0 || i >= rules.len() {
        Ok(Seq::empty())
    } else {
        let key = rules[i].0;
        let resolved: Result<ItemModel, DBError> = match root {
            ItemModel::Table(es) => match crate::assoc::assoc_get(es, key) {
                Some(stored) => match stored {
                    ItemModel::LinkTo(l) => fetch_spec(colls, buf, ItemModel::LinkTo(l), counter),
                    _ => Err(DBError::InternalConsistency),
                },
                None => Ok(ItemModel::Null),
            },
            _ => Ok(ItemModel::Null),
        };
        match resolved {
            Err(e) => Err(e),
            Ok(v) => match resolve_keys_spec(colls, buf, root, rules, counter, i + 1) {
                Err(e) => Err(e),
                Ok(rest) => Ok(seq![(key, v)] + rest),
            },
        }
    }
}

/// Projection-limited resolution of the item under `link`: only the requested
/// keys are resolved, into a new table.
pub open spec fn resolve_spec(
    colls: Seq<CollectionModel>,
    buf: Seq<(LinkModel, ItemModel)>,
    rules: Seq<(Seq<char>, ItemModel)>,
    link: LinkModel,
    counter: u64,
) -> Result<ItemModel, DBError> {
    match skip_links_spec(colls, Some(buf), link, 0) {
        Err(e) => Err(e),
        Ok(hit) => match resolve_keys_spec(colls, buf, hit.1, rules, counter, 0) {
            Err(e) => Err(e),
            Ok(entries) => Ok(ItemModel::Table(entries)),
        },
    }
}

} // verus!
