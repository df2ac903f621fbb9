use vstd::prelude::*;

use crate::error::ContractError;
use crate::msg::{
    payload_transfer, transfer_view, ExecuteMsg, InstantiateMsg, ListAdminsResp,
    ListCompletedTxsResp, ListPendingResp, ListSignedResp, QueryMsg, QueryResponse, Response,
    Transfer,
};
use crate::registry::{is_member, quorum_error, AdminRegistry, RegistryView};
use crate::signatures::SignatureTable;
use crate::state::{
    has_id, index_of_id, lemma_index_of_id, CompletedTransactions, PendingTransactions,
    Transaction, TransactionView, TxMsg, TxMsgView, views,
};

verus! {

/// Everything that one instance of the contract keeps.
#[derive(Debug)]
pub struct Multisig {
    pub registry: AdminRegistry,
    /// The last transaction id given out; zero before the first.
    pub tx_counter: u128,
    pub pending: PendingTransactions,
    pub completed: CompletedTransactions,
    pub signed: SignatureTable,
}

/// What an instance of the contract holds.
pub struct MultisigState {
    pub registry: RegistryView,
    pub tx_counter: u128,
    pub pending: Seq<TransactionView>,
    pub completed: Seq<TransactionView>,
    pub signed: Set<(Seq<char>, u128)>,
}

impl View for Multisig {
    type V = MultisigState;

    open spec fn view(&self) -> MultisigState {
        MultisigState {
            registry: self.registry@,
            tx_counter: self.tx_counter,
            pending: self.pending@,
            completed: self.completed@,
            signed: self.signed@,
        }
    }
}

/// The ids of a list of transactions are pairwise distinct.
pub open spec fn unique_ids(txs: Seq<TransactionView>) -> bool {
    forall|i: int, j: int|
        0 <= i < txs.len() && 0 <= j < txs.len() && i != j ==> #[trigger] txs[i].id
            != #[trigger] txs[j].id
}

/// Every id in a list of transactions was given out by a counter at `counter`.
pub open spec fn ids_allocated(txs: Seq<TransactionView>, counter: u128) -> bool {
    forall|i: int| 0 <= i < txs.len() ==> 1 <= #[trigger] txs[i].id <= counter
}

/// The part of a list of transactions that a page with `offset` and `limit` shows.
pub open spec fn page<T>(txs: Seq<T>, offset: Option<u32>, limit: Option<u32>) -> Seq<T> {
    let start = offset.unwrap_or(0) as int;
    if start >= txs.len() {
        Seq::empty()
    } else {
        let end = match limit {
            Some(l) => if start + l < txs.len() {
                start + l
            } else {
                txs.len() as int
            },
            None => txs.len() as int,
        };
        txs.subrange(start, end)
    }
}

impl MultisigState {
    /// The invariant of the contract's state.
    pub open spec fn wf(self) -> bool {
        &&& self.registry.wf()
        &&& unique_ids(self.pending)
        &&& unique_ids(self.completed)
        &&& forall|i: int, j: int|
            0 <= i < self.pending.len() && 0 <= j < self.completed.len() ==> #[trigger] self.pending[i].id
                != #[trigger] self.completed[j].id
        &&& ids_allocated(self.pending, self.tx_counter)
        &&& ids_allocated(self.completed, self.tx_counter)
        &&& forall|p: (Seq<char>, u128)| #[trigger] self.signed.contains(p) ==> p.1 <= self.tx_counter
    }

    /// The state right after instantiation.
    pub open spec fn initial(registry: RegistryView) -> MultisigState {
        MultisigState {
            registry,
            tx_counter: 0,
            pending: Seq::empty(),
            completed: Seq::empty(),
            signed: Set::empty(),
        }
    }

    pub open spec fn is_admin(self, a: Seq<char>) -> bool {
        is_member(self.registry.admins, a)
    }

    /// The pending transaction with this id, where there is one.
    pub open spec fn pending_tx(self, id: u128) -> TransactionView {
        self.pending[index_of_id(self.pending, id)]
    }

    /// Proposing `msg` as `caller`: the new state and the new id, or the error.
    pub open spec fn create_step(self, caller: Seq<char>, msg: TxMsgView) -> (
        MultisigState,
        Result<u128, ContractError>,
    ) {
        if !self.is_admin(caller) {
            (self, Err(ContractError::Unauthorized))
        } else if self.tx_counter == u128::MAX {
            (self, Err(ContractError::CounterOverflow))
        } else {
            let id = (self.tx_counter + 1) as u128;
            (
                MultisigState {
                    tx_counter: id,
                    pending: self.pending.push(
                        TransactionView { tx_msg: msg, id, num_confirmations: 1 },
                    ),
                    signed: self.signed.insert((caller, id)),
                    ..self
                },
                Ok(id),
            )
        }
    }

    /// Signing transaction `id` as `caller`: the new state, or the error.
    pub open spec fn sign_step(self, caller: Seq<char>, id: u128) -> (
        MultisigState,
        Result<(), ContractError>,
    ) {
        if !self.is_admin(caller) {
            (self, Err(ContractError::Unauthorized))
        } else if self.signed.contains((caller, id)) {
            (self, Err(ContractError::AlreadySigned(id)))
        } else if !has_id(self.pending, id) {
            (self, Err(ContractError::NonExistentTx(id)))
        } else if self.pending_tx(id).num_confirmations == u32::MAX {
            (self, Err(ContractError::CounterOverflow))
        } else {
            let tx = self.pending_tx(id);
            (
                MultisigState {
                    pending: self.pending.update(
                        index_of_id(self.pending, id),
                        TransactionView {
                            num_confirmations: (tx.num_confirmations + 1) as u32,
                            ..tx
                        },
                    ),
                    signed: self.signed.insert((caller, id)),
                    ..self
                },
                Ok(()),
            )
        }
    }

    /// Executing transaction `id`: the new state and the executed payload, or the error.
    pub open spec fn execute_step(self, id: u128) -> (
        MultisigState,
        Result<TxMsgView, ContractError>,
    ) {
        if !has_id(self.pending, id) {
            (self, Err(ContractError::NonExistentTx(id)))
        } else {
            let tx = self.pending_tx(id);
            if self.registry.quorum > tx.num_confirmations {
                (
                    self,
                    Err(
                        ContractError::NotEnoughSignatures {
                            quorum: self.registry.quorum,
                            num_signed: tx.num_confirmations,
                        },
                    ),
                )
            } else {
                let registry = match tx.tx_msg {
                    TxMsgView::TxBank { .. } => Ok(self.registry),
                    TxMsgView::TxSelf(op) => self.registry.mutation(op),
                };
                match registry {
                    Err(e) => (self, Err(e)),
                    Ok(registry) => (
                        MultisigState {
                            registry,
                            pending: self.pending.remove(index_of_id(self.pending, id)),
                            completed: self.completed.push(tx),
                            ..self
                        },
                        Ok(tx.tx_msg),
                    ),
                }
            }
        }
    }
}

/// Starts an instance with the given admins and quorum.
pub fn instantiate(msg: InstantiateMsg) -> (r: Result<Multisig, ContractError>)
    ensures
        r is Ok <==> msg.owners@.len() > 0 && quorum_error(msg.quorum, msg.owners@.len()) is None,
        match r {
            Ok(store) => {
                &&& store@ == MultisigState::initial(
                    RegistryView { admins: msg.owners@, quorum: msg.quorum },
                )
                &&& store@.wf()
            },
            Err(e) => if msg.owners@.len() == 0 {
                e == ContractError::ZeroOwners
            } else {
                quorum_error(msg.quorum, msg.owners@.len()) == Some(e)
            },
        },
{
    let registry = AdminRegistry::new(msg.owners, msg.quorum)?;
    let store = Multisig {
        registry,
        tx_counter: 0,
        pending: PendingTransactions::new(Vec::new()),
        completed: CompletedTransactions::new(Vec::new()),
        signed: SignatureTable::new(),
    };
    assert(store.pending@ =~= Seq::<TransactionView>::empty());
    assert(store.completed@ =~= Seq::<TransactionView>::empty());
    Ok(store)
}

/// Gives out the next transaction id.
pub fn make_next_id(store: &mut Multisig) -> (r: Result<u128, ContractError>)
    ensures
        match r {
            Ok(id) => {
                &&& old(store).tx_counter < u128::MAX
                &&& id == old(store).tx_counter + 1
                &&& final(store)@ == MultisigState { tx_counter: id, ..old(store)@ }
            },
            Err(e) => {
                &&& old(store).tx_counter == u128::MAX
                &&& e == ContractError::CounterOverflow
                &&& final(store)@ == old(store)@
            },
        },
{
    if store.tx_counter == u128::MAX {
        return Err(ContractError::CounterOverflow);
    }
    store.tx_counter = store.tx_counter + 1;
    Ok(store.tx_counter)
}

/// Fails with `Unauthorized` unless `sender` is an admin.
pub fn is_admin(store: &Multisig, sender: &String) -> (r: Result<(), ContractError>)
    ensures
        r is Ok <==> store@.is_admin(sender@),
        r is Err ==> r == Err::<(), ContractError>(ContractError::Unauthorized),
{
    if store.registry.is_admin(sender) {
        Ok(())
    } else {
        Err(ContractError::Unauthorized)
    }
}

/// Proposes a transaction, which its proposer signs at once.
pub fn create_tx(store: &mut Multisig, sender: &String, tx_msg: TxMsg) -> (r: Result<
    u128,
    ContractError,
>)
    requires
        old(store)@.wf(),
    ensures
        (final(store)@, r) == old(store)@.create_step(sender@, tx_msg@),
        final(store)@.wf(),
{
    is_admin(store, sender)?;
    let next_id = make_next_id(store)?;
    let mut tx = Transaction::new(tx_msg, next_id);
    tx.num_confirmations = 1;
    store.pending.push(tx);
    let marked = store.signed.mark_signed(sender.clone(), next_id);
    proof {
        assert(!old(store)@.signed.contains((sender@, next_id)));
    }
    assert(store.pending@ =~= old(store)@.pending.push(
        TransactionView { tx_msg: tx_msg@, id: next_id, num_confirmations: 1 },
    ));
    proof {
        lemma_create_wf(old(store)@, sender@, tx_msg@);
    }
    Ok(next_id)
}

/// Adds the signature of `sender` to a pending transaction.
pub fn sign_tx(store: &mut Multisig, sender: &String, tx_id: u128) -> (r: Result<(), ContractError>)
    requires
        old(store)@.wf(),
    ensures
        (final(store)@, r) == old(store)@.sign_step(sender@, tx_id),
        final(store)@.wf(),
{
    is_admin(store, sender)?;
    if store.signed.has_signed(sender, tx_id) {
        return Err(ContractError::AlreadySigned(tx_id));
    }
    let confirmations = match store.pending.find(tx_id) {
        Some(t) => t.num_confirmations,
        None => {
            return Err(ContractError::NonExistentTx(tx_id));
        },
    };
    if confirmations == u32::MAX {
        return Err(ContractError::CounterOverflow);
    }
    let ghost idx = index_of_id(store.pending@, tx_id);
    match store.pending.find_mut(tx_id) {
        Some(t) => {
            t.num_confirmations = confirmations + 1;
        },
        None => {},
    }
    let marked = store.signed.mark_signed(sender.clone(), tx_id);
    proof {
        let tx0 = old(store)@.pending[idx];
        assert(store.pending@ =~= old(store)@.pending.update(
            idx,
            TransactionView { num_confirmations: (tx0.num_confirmations + 1) as u32, ..tx0 },
        ));
        lemma_sign_wf(old(store)@, sender@, tx_id);
    }
    Ok(())
}

/// Executes a pending transaction that has enough signatures: it moves to the
/// completed ones and its payload is carried out.
pub fn execute_tx(store: &mut Multisig, tx_id: u128) -> (r: Result<Option<Transfer>, ContractError>)
    requires
        old(store)@.wf(),
    ensures
        final(store)@ == old(store)@.execute_step(tx_id).0,
        match (r, old(store)@.execute_step(tx_id).1) {
            (Ok(t), Ok(m)) => transfer_view(t) == payload_transfer(m),
            (Err(e), Err(f)) => e == f,
            _ => false,
        },
        final(store)@.wf(),
{
    let tx = match store.pending.find(tx_id) {
        Some(t) => t.clone(),
        None => {
            return Err(ContractError::NonExistentTx(tx_id));
        },
    };
    let ghost idx = index_of_id(store.pending@, tx_id);
    let quorum = store.registry.quorum;
    if quorum > tx.num_confirmations {
        return Err(
            ContractError::NotEnoughSignatures { quorum, num_signed: tx.num_confirmations },
        );
    }
    let transfer = match &tx.tx_msg {
        TxMsg::TxBank { to, coins } => {
            let c = coins.clone();
            assert(c@ =~= coins@);
            Some(Transfer { to: to.clone(), coins: c })
        },
        TxMsg::TxSelf(op) => {
            store.registry.apply(op.clone())?;
            None
        },
    };
    let removed = store.pending.remove(&tx);
    match removed {
        Some(t) => store.completed.push(t),
        None => {},
    }
    proof {
        let s = old(store)@;
        assert(store.pending@ =~= s.pending.remove(idx));
        assert(store.completed@ =~= s.completed.push(s.pending[idx]));
        lemma_execute_wf(s, tx_id);
    }
    Ok(transfer)
}

/// Runs one admin call: the caller must be an admin, then the call is dispatched.
pub fn execute(store: &mut Multisig, sender: &String, msg: ExecuteMsg) -> (r: Result<
    Response,
    ContractError,
>)
    requires
        old(store)@.wf(),
    ensures
        final(store)@.wf(),
        !old(store)@.is_admin(sender@) ==> {
            &&& r == Err::<Response, ContractError>(ContractError::Unauthorized)
            &&& final(store)@ == old(store)@
        },
        old(store)@.is_admin(sender@) ==> match msg {
            ExecuteMsg::CreateTransaction { tx_msg } => {
                let step = old(store)@.create_step(sender@, tx_msg@);
                &&& final(store)@ == step.0
                &&& match (r, step.1) {
                    (Ok(Response::Created { tx_id }), Ok(id)) => tx_id == id,
                    (Err(e), Err(f)) => e == f,
                    _ => false,
                }
            },
            ExecuteMsg::SignTransactions { tx_id } => {
                let step = old(store)@.sign_step(sender@, tx_id);
                &&& final(store)@ == step.0
                &&& match (r, step.1) {
                    (Ok(Response::Signed { tx_id: signed }), Ok(())) => signed == tx_id,
                    (Err(e), Err(f)) => e == f,
                    _ => false,
                }
            },
            ExecuteMsg::ExecuteTransaction { tx_id } => {
                let step = old(store)@.execute_step(tx_id);
                &&& final(store)@ == step.0
                &&& match (r, step.1) {
                    (Ok(Response::Executed { transfer }), Ok(m)) => transfer_view(transfer)
                        == payload_transfer(m),
                    (Err(e), Err(f)) => e == f,
                    _ => false,
                }
            },
        },
{
    is_admin(store, sender)?;
    match msg {
        ExecuteMsg::CreateTransaction { tx_msg } => {
            let tx_id = create_tx(store, sender, tx_msg)?;
            Ok(Response::Created { tx_id })
        },
        ExecuteMsg::SignTransactions { tx_id } => {
            sign_tx(store, sender, tx_id)?;
            Ok(Response::Signed { tx_id })
        },
        ExecuteMsg::ExecuteTransaction { tx_id } => {
            let transfer = execute_tx(store, tx_id)?;
            Ok(Response::Executed { transfer })
        },
    }
}

/// Copies of the transactions at positions `start` up to `end`.
fn copy_range(txs: &Vec<Transaction>, start: usize, end: usize) -> (r: Vec<Transaction>)
    requires
        start <= end <= txs@.len(),
    ensures
        views(r@) == views(txs@).subrange(start as int, end as int),
{
    let mut out: Vec<Transaction> = Vec::new();
    let mut i: usize = start;
    while i < end
        invariant
            start <= i <= end <= txs@.len(),
            views(out@) =~= views(txs@).subrange(start as int, i as int),
        decreases end - i,
    {
        let c = txs[i].clone();
        let ghost prev = out@;
        out.push(c);
        assert(views(out@) =~= views(prev).push(c@));
        assert(views(txs@).subrange(start as int, i + 1) =~= views(txs@).subrange(
            start as int,
            i as int,
        ).push(txs@[i as int]@));
        i = i + 1;
    }
    out
}

/// Whether `admin` has signed transaction `tx_id`; an unknown pair has not.
pub fn list_signed(store: &Multisig, admin: String, tx_id: u128) -> (r: ListSignedResp)
    ensures
        r.signed == store@.signed.contains((admin@, tx_id)),
{
    ListSignedResp { signed: store.signed.has_signed(&admin, tx_id) }
}

/// The current admins.
pub fn list_admins(store: &Multisig) -> (r: ListAdminsResp)
    ensures
        r.admins@ == store@.registry.admins,
{
    let admins = store.registry.admins.clone();
    assert(admins@ =~= store.registry.admins@);
    ListAdminsResp { admins }
}

/// The transactions that are waiting, in the order in which they were proposed.
pub fn list_pending(store: &Multisig) -> (r: ListPendingResp)
    ensures
        r.transactions@ == store@.pending,
{
    let txs = copy_range(&store.pending.0, 0, store.pending.0.len());
    assert(views(store.pending.0@).subrange(0, store.pending.0@.len() as int) =~= store@.pending);
    ListPendingResp { transactions: PendingTransactions(txs) }
}

/// A page of the executed transactions: `limit` of them from position `offset`,
/// clamped to the list; none where `offset` is past its end.
pub fn list_completed_txs(store: &Multisig, offset: Option<u32>, limit: Option<u32>) -> (r:
    ListCompletedTxsResp)
    ensures
        r.transactions@ == page(store@.completed, offset, limit),
{
    let len = store.completed.0.len();
    let start_pos: usize = match offset {
        Some(o) => o as usize,
        None => 0,
    };
    if start_pos >= len {
        let empty: Vec<Transaction> = Vec::new();
        assert(views(empty@) =~= Seq::<TransactionView>::empty());
        return ListCompletedTxsResp { transactions: CompletedTransactions(empty) };
    }
    let end_pos: usize = match limit {
        Some(lim) => if (lim as usize) < len - start_pos {
            start_pos + lim as usize
        } else {
            len
        },
        None => len,
    };
    let txs = copy_range(&store.completed.0, start_pos, end_pos);
    ListCompletedTxsResp { transactions: CompletedTransactions(txs) }
}

/// The number of signatures that a transaction needs.
pub fn get_quorum(store: &Multisig) -> (r: u32)
    ensures
        r == store@.registry.quorum,
{
    store.registry.quorum
}

/// Answers a read-only question.
pub fn query(store: &Multisig, msg: QueryMsg) -> (r: QueryResponse)
    ensures
        match msg {
            QueryMsg::ListPending {  } => r matches QueryResponse::ListPending(resp)
                && resp.transactions@ == store@.pending,
            QueryMsg::ListCompletedTxs { offset, limit } => r matches QueryResponse::ListCompletedTxs(
                resp,
            ) && resp.transactions@ == page(store@.completed, offset, limit),
            QueryMsg::ListAdmins {  } => r matches QueryResponse::ListAdmins(resp)
                && resp.admins@ == store@.registry.admins,
            QueryMsg::ListSigned { admin, tx_id } => r matches QueryResponse::ListSigned(resp)
                && resp.signed == store@.signed.contains((admin@, tx_id)),
            QueryMsg::GetQuorum {  } => r matches QueryResponse::GetQuorum(q) && q
                == store@.registry.quorum,
        },
{
    match msg {
        QueryMsg::ListPending {  } => QueryResponse::ListPending(list_pending(store)),
        QueryMsg::ListCompletedTxs { offset, limit } => QueryResponse::ListCompletedTxs(
            list_completed_txs(store, offset, limit),
        ),
        QueryMsg::ListAdmins {  } => QueryResponse::ListAdmins(list_admins(store)),
        QueryMsg::ListSigned { admin, tx_id } => QueryResponse::ListSigned(
            list_signed(store, admin, tx_id),
        ),
        QueryMsg::GetQuorum {  } => QueryResponse::GetQuorum(get_quorum(store)),
    }
}

/// Whether every id in `txs` lies between one and `counter`.
fn ids_within(txs: &Vec<Transaction>, counter: u128) -> (r: bool)
    ensures
        r == ids_allocated(views(txs@), counter),
{
    let mut i: usize = 0;
    while i < txs.len()
        invariant
            0 <= i <= txs@.len(),
            forall|j: int| 0 <= j < i ==> 1 <= #[trigger] views(txs@)[j].id <= counter,
        decreases txs.len() - i,
    {
        if txs[i].id < 1 || txs[i].id > counter {
            assert(!(1 <= views(txs@)[i as int].id <= counter));
            return false;
        }
        i = i + 1;
    }
    true
}

/// Whether no id of `a` equals an id of `b` at another position, or at any
/// position where `same` is false.
fn ids_apart(a: &Vec<Transaction>, b: &Vec<Transaction>, same: bool) -> (r: bool)
    requires
        same ==> a@ == b@,
    ensures
        r == forall|i: int, j: int|
            0 <= i < a@.len() && 0 <= j < b@.len() && (!same || i != j)
                ==> #[trigger] views(a@)[i].id != #[trigger] views(b@)[j].id,
{
    let mut i: usize = 0;
    while i < a.len()
        invariant
            0 <= i <= a@.len(),
            forall|x: int, y: int|
                0 <= x < i && 0 <= y < b@.len() && (!same || x != y)
                    ==> #[trigger] views(a@)[x].id != #[trigger] views(b@)[y].id,
        decreases a.len() - i,
    {
        let mut j: usize = 0;
        while j < b.len()
            invariant
                0 <= i < a@.len(),
                0 <= j <= b@.len(),
                forall|x: int, y: int|
                    0 <= x < i && 0 <= y < b@.len() && (!same || x != y)
                        ==> #[trigger] views(a@)[x].id != #[trigger] views(b@)[y].id,
                forall|y: int|
                    0 <= y < j && (!same || i != y) ==> views(a@)[i as int].id != #[trigger] views(
                        b@,
                    )[y].id,
            decreases b.len() - j,
        {
            if (!same || i != j) && a[i].id == b[j].id {
                assert(views(a@)[i as int].id == views(b@)[j as int].id);
                return false;
            }
            j = j + 1;
        }
        i = i + 1;
    }
    true
}

/// Whether the state meets the contract's invariant; a state read back from
/// storage is checked with this before it is used.
pub fn is_well_formed(store: &Multisig) -> (r: bool)
    ensures
        r == store@.wf(),
{
    let reg = store.registry.quorum > 0 && store.registry.quorum as usize <= store.registry.admins.len();
    if !reg {
        return false;
    }
    let pending = &store.pending.0;
    let completed = &store.completed.0;
    if !ids_apart(pending, pending, true) || !ids_apart(completed, completed, true) || !ids_apart(
        pending,
        completed,
        false,
    ) {
        return false;
    }
    if !ids_within(pending, store.tx_counter) || !ids_within(completed, store.tx_counter) {
        return false;
    }
    let mut k: usize = 0;
    while k < store.signed.records.len()
        invariant
            0 <= k <= store.signed.records@.len(),
            forall|x: int| 0 <= x < k ==> #[trigger] store.signed.records@[x].tx_id <= store.tx_counter,
        decreases store.signed.records.len() - k,
    {
        if store.signed.records[k].tx_id > store.tx_counter {
            let ghost key = (store.signed.records@[k as int].admin@, store.signed.records@[k as int].tx_id);
            assert(store.signed.records@[k as int].admin@ == key.0);
            assert(store@.signed.contains(key));
            return false;
        }
        k = k + 1;
    }
    true
}

/// Signing keeps the invariant.
pub proof fn lemma_sign_wf(s: MultisigState, caller: Seq<char>, id: u128)
    requires
        s.wf(),
    ensures
        s.sign_step(caller, id).0.wf(),
{
    let t = s.sign_step(caller, id).0;
    if s.sign_step(caller, id).1 is Ok {
        lemma_index_of_id(s.pending, id);
        let idx = index_of_id(s.pending, id);
        assert(forall|i: int| 0 <= i < s.pending.len() ==> #[trigger] t.pending[i].id == s.pending[i].id);
        assert(s.pending[idx].id == id);
    }
}

/// Executing keeps the invariant.
pub proof fn lemma_execute_wf(s: MultisigState, id: u128)
    requires
        s.wf(),
    ensures
        s.execute_step(id).0.wf(),
{
    let t = s.execute_step(id).0;
    if s.execute_step(id).1 is Ok {
        lemma_index_of_id(s.pending, id);
        let idx = index_of_id(s.pending, id);
        let tx = s.pending[idx];
        assert(forall|i: int|
            0 <= i < t.pending.len() ==> #[trigger] t.pending[i] == s.pending[if i < idx {
                i
            } else {
                i + 1
            }]);
        assert(forall|j: int| 0 <= j < s.completed.len() ==> #[trigger] t.completed[j] == s.completed[j]);
        assert(t.completed[s.completed.len() as int] == tx);
    }
}

/// Proposing keeps the invariant.
pub proof fn lemma_create_wf(s: MultisigState, caller: Seq<char>, msg: TxMsgView)
    requires
        s.wf(),
    ensures
        s.create_step(caller, msg).0.wf(),
{
    let t = s.create_step(caller, msg).0;
    if t != s {
        assert(forall|i: int| 0 <= i < s.pending.len() ==> t.pending[i] == s.pending[i]);
    }
}

} // verus!
