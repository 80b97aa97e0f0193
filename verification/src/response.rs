//! The response envelope: one response per query step, accumulated in arrival
//! order, and a transaction-level outcome distinguishing success from the
//! structured error that aborted it.

use vstd::prelude::*;

use crate::errors::DBError;
use crate::item::Item;
use crate::model::ItemModel;

verus! {

/// Whether a step's response still awaits the end-of-step fetch.
#[derive(Debug, Clone, Copy, PartialEq, Eq, Structural)]
pub enum QueryStatus {
    NotFetched,
    Ready,
}

/// Bookkeeping attached to a response.
#[derive(Debug, Clone, Copy, PartialEq, Eq, Structural)]
pub enum Meta {
    FindMeta { count: usize },
    DeleteMeta { count: usize },
}

/// The response of one query step.
#[derive(Debug)]
pub struct QueryResponse {
    pub data: Item,
    pub meta: Meta,
    pub status: QueryStatus,
}

impl QueryResponse {
    pub fn new(data: Item, meta: Meta, status: QueryStatus) -> (r: QueryResponse)
        ensures
            r.data@ == data@,
            r.meta == meta,
            r.status == status,
    {
        QueryResponse { data, meta, status }
    }
}

/// The responses of a successful transaction, in step order.
#[derive(Debug)]
pub struct OkTransactionResponse {
    pub responses: Vec<QueryResponse>,
}

impl OkTransactionResponse {
    pub fn new() -> (r: OkTransactionResponse)
        ensures
            r.responses@.len() == 0,
    {
        OkTransactionResponse { responses: Vec::new() }
    }

    pub fn add_response(&mut self, response: QueryResponse)
        ensures
            final(self).responses@ == old(self).responses@.push(response),
    {
        self.responses.push(response);
    }
}

/// The outcome handed back to the caller: the accumulated responses, or the
/// error that aborted the transaction before commit.
#[derive(Debug)]
pub enum TransactionResult {
    Committed(OkTransactionResponse),
    Failed(DBError),
}

/// Model of one step response.
#[verifier::ext_equal]
pub struct ResponseModel {
    pub data: ItemModel,
    pub meta: Meta,
    pub status: QueryStatus,
}

/// The model of a response.
pub open spec fn response_model(r: QueryResponse) -> ResponseModel {
    ResponseModel { data: r.data@, meta: r.meta, status: r.status }
}

/// The models of a transaction's responses, in step order.
pub open spec fn responses_model(s: Seq<QueryResponse>) -> Seq<ResponseModel> {
    Seq::new(s.len(), |i: int| response_model(s[i]))
}

} // verus!
