use vstd::prelude::*;

verus! {

/// An amount of one native token.
#[derive(Debug, PartialEq, Eq)]
pub struct Coin {
    pub denom: String,
    pub amount: u128,
}

impl Clone for Coin {
    fn clone(&self) -> (r: Self)
        ensures
            r == *self,
    {
        Coin { denom: self.denom.clone(), amount: self.amount }
    }
}

/// A change of the contract's own governance, applied when its transaction executes.
#[derive(Debug, PartialEq, Eq)]
pub enum SelfTx {
    AddOwner { owner: String, quorum: Option<u32> },
    RemoveOwner { owner: String, quorum: Option<u32> },
    UpdateQuorum { quorum: u32 },
}

impl Clone for SelfTx {
    fn clone(&self) -> (r: Self)
        ensures
            r == *self,
    {
        match self {
            SelfTx::AddOwner { owner, quorum } => SelfTx::AddOwner {
                owner: owner.clone(),
                quorum: *quorum,
            },
            SelfTx::RemoveOwner { owner, quorum } => SelfTx::RemoveOwner {
                owner: owner.clone(),
                quorum: *quorum,
            },
            SelfTx::UpdateQuorum { quorum } => SelfTx::UpdateQuorum { quorum: *quorum },
        }
    }
}

/// The payload of a transaction: an asset transfer or a self-administration.
#[derive(Debug, PartialEq, Eq)]
pub enum TxMsg {
    TxBank { to: String, coins: Vec<Coin> },
    TxSelf(SelfTx),
}

/// What a payload is, with its coins as a sequence.
pub enum TxMsgView {
    TxBank { to: String, coins: Seq<Coin> },
    TxSelf(SelfTx),
}

impl View for TxMsg {
    type V = TxMsgView;

    open spec fn view(&self) -> TxMsgView {
        match self {
            TxMsg::TxBank { to, coins } => TxMsgView::TxBank { to: *to, coins: coins@ },
            TxMsg::TxSelf(op) => TxMsgView::TxSelf(*op),
        }
    }
}

impl Clone for TxMsg {
    fn clone(&self) -> (r: Self)
        ensures
            r@ == self@,
    {
        match self {
            TxMsg::TxBank { to, coins } => {
                let c = coins.clone();
                assert(c@ =~= coins@);
                TxMsg::TxBank { to: to.clone(), coins: c }
            },
            TxMsg::TxSelf(op) => TxMsg::TxSelf(op.clone()),
        }
    }
}

/// A proposed transaction and the number of admins that approved it.
#[derive(Debug, PartialEq, Eq)]
pub struct Transaction {
    pub tx_msg: TxMsg,
    pub id: u128,
    pub num_confirmations: u32,
}

/// What a transaction is, with its payload viewed.
pub struct TransactionView {
    pub tx_msg: TxMsgView,
    pub id: u128,
    pub num_confirmations: u32,
}

impl View for Transaction {
    type V = TransactionView;

    open spec fn view(&self) -> TransactionView {
        TransactionView {
            tx_msg: self.tx_msg@,
            id: self.id,
            num_confirmations: self.num_confirmations,
        }
    }
}

impl Clone for Transaction {
    fn clone(&self) -> (r: Self)
        ensures
            r@ == self@,
    {
        Transaction {
            tx_msg: self.tx_msg.clone(),
            id: self.id,
            num_confirmations: self.num_confirmations,
        }
    }
}

impl Transaction {
    /// A transaction with no confirmations yet.
    pub fn new(tx_msg: TxMsg, id: u128) -> (r: Self)
        ensures
            r.tx_msg == tx_msg,
            r.id == id,
            r.num_confirmations == 0,
    {
        Transaction { tx_msg, id, num_confirmations: 0 }
    }
}

/// There is a transaction with this id in `txs`.
pub open spec fn has_id(txs: Seq<TransactionView>, id: u128) -> bool {
    exists|i: int| 0 <= i < txs.len() && #[trigger] txs[i].id == id
}

/// `i` is the first position in `txs` that holds a transaction with this id.
pub open spec fn first_with_id(txs: Seq<TransactionView>, id: u128, i: int) -> bool {
    &&& 0 <= i < txs.len()
    &&& txs[i].id == id
    &&& forall|j: int| 0 <= j < i ==> #[trigger] txs[j].id != id
}

/// The first position in `txs` that holds a transaction with this id.
pub open spec fn index_of_id(txs: Seq<TransactionView>, id: u128) -> int {
    choose|i: int| first_with_id(txs, id, i)
}

/// The views of a list of transactions.
pub open spec fn views(txs: Seq<Transaction>) -> Seq<TransactionView> {
    txs.map_values(|t: Transaction| t@)
}

/// A transaction with this id at `k` means a first one at or before `k`.
proof fn lemma_first_at_or_before(txs: Seq<TransactionView>, id: u128, k: int)
    requires
        0 <= k < txs.len(),
        txs[k].id == id,
    ensures
        exists|i: int| first_with_id(txs, id, i),
    decreases k,
{
    if exists|j: int| 0 <= j < k && #[trigger] txs[j].id == id {
        let j = choose|j: int| 0 <= j < k && #[trigger] txs[j].id == id;
        lemma_first_at_or_before(txs, id, j);
    } else {
        assert(first_with_id(txs, id, k));
    }
}

/// Where a transaction has the id, `index_of_id` is its first position.
pub proof fn lemma_index_of_id(txs: Seq<TransactionView>, id: u128)
    requires
        has_id(txs, id),
    ensures
        first_with_id(txs, id, index_of_id(txs, id)),
{
    let k = choose|k: int| 0 <= k < txs.len() && #[trigger] txs[k].id == id;
    lemma_first_at_or_before(txs, id, k);
}

/// The first position in `txs` whose transaction has this id, if any.
fn position_of(txs: &Vec<Transaction>, tx_id: u128) -> (r: Option<usize>)
    ensures
        match r {
            Some(i) => first_with_id(views(txs@), tx_id, i as int),
            None => !has_id(views(txs@), tx_id),
        },
{
    let mut i: usize = 0;
    while i < txs.len()
        invariant
            0 <= i <= txs.len(),
            forall|j: int| 0 <= j < i ==> #[trigger] views(txs@)[j].id != tx_id,
        decreases txs.len() - i,
    {
        if txs[i].id == tx_id {
            return Some(i);
        }
        i = i + 1;
    }
    None
}

/// The transactions that wait for signatures or execution.
#[derive(Debug, PartialEq, Eq)]
pub struct PendingTransactions(pub Vec<Transaction>);

impl View for PendingTransactions {
    type V = Seq<TransactionView>;

    open spec fn view(&self) -> Seq<TransactionView> {
        views(self.0@)
    }
}

impl PendingTransactions {
    pub fn new(txs: Vec<Transaction>) -> (r: Self)
        ensures
            r.0 == txs,
    {
        PendingTransactions(txs)
    }

    /// The transaction at a position, if there is one.
    pub fn index(&self, index: u128) -> (r: Option<&Transaction>)
        ensures
            match r {
                Some(t) => index < self.0@.len() && *t == self.0@[index as int],
                None => index >= self.0@.len(),
            },
    {
        if index < self.0.len() as u128 {
            Some(&self.0[index as usize])
        } else {
            None
        }
    }

    pub fn push(&mut self, tx: Transaction)
        ensures
            final(self).0@ == old(self).0@.push(tx),
    {
        self.0.push(tx);
    }

    /// The first transaction with this id, to be changed in place.
    pub fn find_mut(&mut self, tx_id: u128) -> (r: Option<&mut Transaction>)
        ensures
            match r {
                Some(t) => {
                    &&& first_with_id(old(self)@, tx_id, index_of_id(old(self)@, tx_id))
                    &&& *t == old(self).0@[index_of_id(old(self)@, tx_id)]
                    &&& final(self).0@ == old(self).0@.update(
                        index_of_id(old(self)@, tx_id),
                        *final(t),
                    )
                },
                None => !has_id(old(self)@, tx_id) && final(self).0@ == old(self).0@,
            },
    {
        match position_of(&self.0, tx_id) {
            Some(i) => {
                proof {
                    lemma_index_of_id(self@, tx_id);
                    lemma_first_unique(self@, tx_id, i as int, index_of_id(self@, tx_id));
                }
                Some(&mut self.0[i])
            },
            None => None,
        }
    }

    /// The first transaction with this id.
    pub fn find(&self, tx_id: u128) -> (r: Option<&Transaction>)
        ensures
            match r {
                Some(t) => {
                    &&& first_with_id(self@, tx_id, index_of_id(self@, tx_id))
                    &&& *t == self.0@[index_of_id(self@, tx_id)]
                },
                None => !has_id(self@, tx_id),
            },
    {
        match position_of(&self.0, tx_id) {
            Some(i) => {
                proof {
                    lemma_index_of_id(self@, tx_id);
                    lemma_first_unique(self@, tx_id, i as int, index_of_id(self@, tx_id));
                }
                Some(&self.0[i])
            },
            None => None,
        }
    }

    /// Takes out the first transaction with the id of `tx`.
    pub fn remove(&mut self, tx: &Transaction) -> (r: Option<Transaction>)
        ensures
            match r {
                Some(t) => {
                    &&& first_with_id(old(self)@, tx.id, index_of_id(old(self)@, tx.id))
                    &&& t == old(self).0@[index_of_id(old(self)@, tx.id)]
                    &&& final(self).0@ == old(self).0@.remove(index_of_id(old(self)@, tx.id))
                },
                None => !has_id(old(self)@, tx.id) && final(self).0@ == old(self).0@,
            },
    {
        match position_of(&self.0, tx.id) {
            Some(i) => {
                proof {
                    lemma_index_of_id(self@, tx.id);
                    lemma_first_unique(self@, tx.id, i as int, index_of_id(self@, tx.id));
                }
                let ret_tx = self.0.remove(i);
                Some(ret_tx)
            },
            None => None,
        }
    }
}

/// The executed transactions, in the order in which they were executed.
#[derive(Debug, PartialEq, Eq)]
pub struct CompletedTransactions(pub Vec<Transaction>);

impl View for CompletedTransactions {
    type V = Seq<TransactionView>;

    open spec fn view(&self) -> Seq<TransactionView> {
        views(self.0@)
    }
}

impl CompletedTransactions {
    pub fn new(txs: Vec<Transaction>) -> (r: Self)
        ensures
            r.0 == txs,
    {
        CompletedTransactions(txs)
    }

    /// The transaction at a position, if there is one.
    pub fn index(&self, index: u128) -> (r: Option<&Transaction>)
        ensures
            match r {
                Some(t) => index < self.0@.len() && *t == self.0@[index as int],
                None => index >= self.0@.len(),
            },
    {
        if index < self.0.len() as u128 {
            Some(&self.0[index as usize])
        } else {
            None
        }
    }

    pub fn push(&mut self, tx: Transaction)
        ensures
            final(self).0@ == old(self).0@.push(tx),
    {
        self.0.push(tx);
    }

    /// The first transaction with this id, to be changed in place.
    pub fn find_mut(&mut self, tx_id: u128) -> (r: Option<&mut Transaction>)
        ensures
            match r {
                Some(t) => {
                    &&& first_with_id(old(self)@, tx_id, index_of_id(old(self)@, tx_id))
                    &&& *t == old(self).0@[index_of_id(old(self)@, tx_id)]
                    &&& final(self).0@ == old(self).0@.update(
                        index_of_id(old(self)@, tx_id),
                        *final(t),
                    )
                },
                None => !has_id(old(self)@, tx_id) && final(self).0@ == old(self).0@,
            },
    {
        match position_of(&self.0, tx_id) {
            Some(i) => {
                proof {
                    lemma_index_of_id(self@, tx_id);
                    lemma_first_unique(self@, tx_id, i as int, index_of_id(self@, tx_id));
                }
                Some(&mut self.0[i])
            },
            None => None,
        }
    }

    /// The first transaction with this id.
    pub fn find(&self, tx_id: u128) -> (r: Option<&Transaction>)
        ensures
            match r {
                Some(t) => {
                    &&& first_with_id(self@, tx_id, index_of_id(self@, tx_id))
                    &&& *t == self.0@[index_of_id(self@, tx_id)]
                },
                None => !has_id(self@, tx_id),
            },
    {
        match position_of(&self.0, tx_id) {
            Some(i) => {
                proof {
                    lemma_index_of_id(self@, tx_id);
                    lemma_first_unique(self@, tx_id, i as int, index_of_id(self@, tx_id));
                }
                Some(&self.0[i])
            },
            None => None,
        }
    }
}

/// Two first positions of one id are the same position.
pub proof fn lemma_first_unique(txs: Seq<TransactionView>, id: u128, i: int, j: int)
    requires
        first_with_id(txs, id, i),
        first_with_id(txs, id, j),
    ensures
        i == j,
{
    if i < j {
        assert(txs[i].id != id);
    } else if j < i {
        assert(txs[j].id != id);
    }
}

} // verus!
