use vstd::prelude::*;

use crate::state::{Coin, CompletedTransactions, PendingTransactions, TxMsg, TxMsgView};

verus! {

/// The admins of a new contract and the quorum they need.
#[derive(Debug)]
pub struct InstantiateMsg {
    /// Owners that need to sign transactions.
    pub owners: Vec<String>,
    /// Between one and the number of owners.
    pub quorum: u32,
}

/// The calls that admins make.
#[derive(Debug)]
pub enum ExecuteMsg {
    CreateTransaction { tx_msg: TxMsg },
    SignTransactions { tx_id: u128 },
    ExecuteTransaction { tx_id: u128 },
}

/// The read-only questions that anyone may ask.
#[derive(Debug)]
pub enum QueryMsg {
    ListPending {},
    ListCompletedTxs { offset: Option<u32>, limit: Option<u32> },
    ListAdmins {},
    ListSigned { admin: String, tx_id: u128 },
    GetQuorum {},
}

#[derive(Debug, Clone, Copy, PartialEq, Eq)]
pub struct ListSignedResp {
    pub signed: bool,
}

#[derive(Debug)]
pub struct ListAdminsResp {
    pub admins: Vec<String>,
}

#[derive(Debug)]
pub struct ListPendingResp {
    pub transactions: PendingTransactions,
}

#[derive(Debug)]
pub struct ListCompletedTxsResp {
    pub transactions: CompletedTransactions,
}

/// The answer to a query, one variant for each question.
#[derive(Debug)]
pub enum QueryResponse {
    ListPending(ListPendingResp),
    ListCompletedTxs(ListCompletedTxsResp),
    ListAdmins(ListAdminsResp),
    ListSigned(ListSignedResp),
    GetQuorum(u32),
}

/// An instruction to send coins out of the contract's custody.
#[derive(Debug, PartialEq, Eq)]
pub struct Transfer {
    pub to: String,
    pub coins: Vec<Coin>,
}

impl View for Transfer {
    type V = (String, Seq<Coin>);

    open spec fn view(&self) -> (String, Seq<Coin>) {
        (self.to, self.coins@)
    }
}

/// The transfer that a payload asks for, if it is an asset transfer.
pub open spec fn payload_transfer(m: TxMsgView) -> Option<(String, Seq<Coin>)> {
    match m {
        TxMsgView::TxBank { to, coins } => Some((to, coins)),
        TxMsgView::TxSelf(_) => None,
    }
}

/// The view of an optional transfer.
pub open spec fn transfer_view(t: Option<Transfer>) -> Option<(String, Seq<Coin>)> {
    match t {
        Some(t) => Some(t@),
        None => None,
    }
}

/// What a successful call did.
#[derive(Debug)]
pub enum Response {
    /// A transaction was proposed under this id.
    Created { tx_id: u128 },
    /// The caller's signature was added to this transaction.
    Signed { tx_id: u128 },
    /// A transaction was executed; an asset transfer hands out its instruction.
    Executed { transfer: Option<Transfer> },
}

} // verus!
