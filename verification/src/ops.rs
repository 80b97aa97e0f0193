//! The query operations and the legal-successor state machine that governs
//! which operation may follow which within one query step.

use vstd::prelude::*;

verus! {

/// The externally invokable query operations.
#[derive(Debug, Clone, Copy, PartialEq, Eq, Structural)]
pub enum QueryOperation {
    InsertOperation,
    FindOperation,
    GetOperation,
    UpdateOperation,
    DeleteOperation,
    SortOperation,
    LimitOperation,
    OffsetOperation,
    ProjectOperation,
    IndexOperation,
}

/// The operations permitted as the first item of a query step.
pub open spec fn initial_ops_spec() -> Seq<QueryOperation> {
    seq![
        QueryOperation::InsertOperation,
        QueryOperation::FindOperation,
        QueryOperation::GetOperation,
        QueryOperation::DeleteOperation,
        QueryOperation::IndexOperation,
    ]
}

/// The operations permitted after an item of operation `op` has executed.
pub open spec fn successors_spec(op: QueryOperation) -> Seq<QueryOperation> {
    match op {
        QueryOperation::InsertOperation => seq![QueryOperation::InsertOperation],
        QueryOperation::FindOperation => seq![
            QueryOperation::FindOperation,
            QueryOperation::UpdateOperation,
            QueryOperation::DeleteOperation,
            QueryOperation::SortOperation,
            QueryOperation::LimitOperation,
            QueryOperation::OffsetOperation,
            QueryOperation::ProjectOperation,
        ],
        QueryOperation::GetOperation => seq![
            QueryOperation::FindOperation,
            QueryOperation::UpdateOperation,
            QueryOperation::DeleteOperation,
            QueryOperation::SortOperation,
            QueryOperation::LimitOperation,
            QueryOperation::OffsetOperation,
            QueryOperation::ProjectOperation,
        ],
        QueryOperation::UpdateOperation => seq![QueryOperation::UpdateOperation],
        QueryOperation::DeleteOperation => Seq::empty(),
        QueryOperation::SortOperation => seq![
            QueryOperation::UpdateOperation,
            QueryOperation::DeleteOperation,
            QueryOperation::SortOperation,
            QueryOperation::LimitOperation,
            QueryOperation::OffsetOperation,
            QueryOperation::ProjectOperation,
        ],
        QueryOperation::LimitOperation => seq![
            QueryOperation::FindOperation,
            QueryOperation::UpdateOperation,
            QueryOperation::DeleteOperation,
            QueryOperation::LimitOperation,
            QueryOperation::OffsetOperation,
            QueryOperation::ProjectOperation,
        ],
        QueryOperation::OffsetOperation => seq![
            QueryOperation::FindOperation,
            QueryOperation::UpdateOperation,
            QueryOperation::DeleteOperation,
            QueryOperation::LimitOperation,
            QueryOperation::OffsetOperation,
            QueryOperation::ProjectOperation,
        ],
        QueryOperation::ProjectOperation => Seq::empty(),
        QueryOperation::IndexOperation => Seq::empty(),
    }
}

/// Whether a sequence of operations respects the state machine: each
/// operation must be permitted by its predecessor's successor set (by the
/// initial set for the first operation).
pub open spec fn sequencing_ok_from(
    permitted: Seq<QueryOperation>,
    ops: Seq<QueryOperation>,
    i: int,
) -> bool
    decreases ops.len() - i,
{
    if i < 0 || i >= ops.len() {
        true
    } else {
        permitted.contains(ops[i]) && sequencing_ok_from(successors_spec(ops[i]), ops, i + 1)
    }
}

pub open spec fn sequencing_ok(ops: Seq<QueryOperation>) -> bool {
    sequencing_ok_from(initial_ops_spec(), ops, 0)
}

/// Executable permission test.
pub fn ops_permit(permitted: &Vec<QueryOperation>, op: QueryOperation) -> (r: bool)
    ensures
        r == permitted@.contains(op),
{
    let mut i: usize = 0;
    while i < permitted.len()
        invariant
            0 <= i <= permitted.len(),
            forall|j: int| 0 <= j < i ==> permitted@[j] != op,
        decreases permitted.len() - i,
    {
        if permitted[i] == op {
            return true;
        }
        i += 1;
    }
    false
}

/// Executable form of `initial_ops_spec`.
pub fn initial_ops() -> (r: Vec<QueryOperation>)
    ensures
        r@ == initial_ops_spec(),
{
    let r = vec![
        QueryOperation::InsertOperation,
        QueryOperation::FindOperation,
        QueryOperation::GetOperation,
        QueryOperation::DeleteOperation,
        QueryOperation::IndexOperation,
    ];
    proof {
        assert(r@ =~= initial_ops_spec());
    }
    r
}

/// Executable form of `successors_spec`.
pub fn successors(op: QueryOperation) -> (r: Vec<QueryOperation>)
    ensures
        r@ == successors_spec(op),
{
    let r = match op {
        QueryOperation::InsertOperation => vec![QueryOperation::InsertOperation],
        QueryOperation::FindOperation => vec![
            QueryOperation::FindOperation,
            QueryOperation::UpdateOperation,
            QueryOperation::DeleteOperation,
            QueryOperation::SortOperation,
            QueryOperation::LimitOperation,
            QueryOperation::OffsetOperation,
            QueryOperation::ProjectOperation,
        ],
        QueryOperation::GetOperation => vec![
            QueryOperation::FindOperation,
            QueryOperation::UpdateOperation,
            QueryOperation::DeleteOperation,
            QueryOperation::SortOperation,
            QueryOperation::LimitOperation,
            QueryOperation::OffsetOperation,
            QueryOperation::ProjectOperation,
        ],
        QueryOperation::UpdateOperation => vec![QueryOperation::UpdateOperation],
        QueryOperation::DeleteOperation => Vec::new(),
        QueryOperation::SortOperation => vec![
            QueryOperation::UpdateOperation,
            QueryOperation::DeleteOperation,
            QueryOperation::SortOperation,
            QueryOperation::LimitOperation,
            QueryOperation::OffsetOperation,
            QueryOperation::ProjectOperation,
        ],
        QueryOperation::LimitOperation => vec![
            QueryOperation::FindOperation,
            QueryOperation::UpdateOperation,
            QueryOperation::DeleteOperation,
            QueryOperation::LimitOperation,
            QueryOperation::OffsetOperation,
            QueryOperation::ProjectOperation,
        ],
        QueryOperation::OffsetOperation => vec![
            QueryOperation::FindOperation,
            QueryOperation::UpdateOperation,
            QueryOperation::DeleteOperation,
            QueryOperation::LimitOperation,
            QueryOperation::OffsetOperation,
            QueryOperation::ProjectOperation,
        ],
        QueryOperation::ProjectOperation => Vec::new(),
        QueryOperation::IndexOperation => Vec::new(),
    };
    proof {
        assert(r@ =~= successors_spec(op));
    }
    r
}

} // verus!
