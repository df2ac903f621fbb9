//! Properties of the transaction engine over whole sequences of calls.
use vstd::prelude::*;

use crate::contract::{lemma_create_wf, lemma_execute_wf, lemma_sign_wf, MultisigState};
use crate::error::ContractError;
use crate::state::{
    first_with_id, has_id, index_of_id, lemma_first_unique, lemma_index_of_id, SelfTx, TxMsgView,
};

verus! {

/// One call that changes the state, with its caller where it has one.
pub enum Call {
    Create { caller: Seq<char>, msg: TxMsgView },
    Sign { caller: Seq<char>, id: u128 },
    Execute { id: u128 },
}

impl MultisigState {
    /// The state after one call, failed or not.
    pub open spec fn step(self, call: Call) -> MultisigState {
        match call {
            Call::Create { caller, msg } => self.create_step(caller, msg).0,
            Call::Sign { caller, id } => self.sign_step(caller, id).0,
            Call::Execute { id } => self.execute_step(id).0,
        }
    }

    /// The state after a sequence of calls.
    pub open spec fn run(self, calls: Seq<Call>) -> MultisigState
        decreases calls.len(),
    {
        if calls.len() == 0 {
            self
        } else {
            self.run(calls.drop_last()).step(calls.last())
        }
    }
}

/// The state after the admins in `signers` sign transaction `id`, one after another.
pub open spec fn sign_all(s: MultisigState, id: u128, signers: Seq<Seq<char>>) -> MultisigState
    decreases signers.len(),
{
    if signers.len() == 0 {
        s
    } else {
        sign_all(s, id, signers.drop_last()).sign_step(signers.last(), id).0
    }
}

/// One call keeps the invariant, never lowers the id counter, and only appends
/// to the completed transactions.
pub proof fn lemma_step(s: MultisigState, call: Call)
    requires
        s.wf(),
    ensures
        s.step(call).wf(),
        s.step(call).tx_counter >= s.tx_counter,
        s.completed.is_prefix_of(s.step(call).completed),
{
    match call {
        Call::Create { caller, msg } => lemma_create_wf(s, caller, msg),
        Call::Sign { caller, id } => lemma_sign_wf(s, caller, id),
        Call::Execute { id } => lemma_execute_wf(s, id),
    }
    assert(s.completed.is_prefix_of(s.step(call).completed)) by {
        assert(forall|i: int| 0 <= i < s.completed.len() ==> s.step(call).completed[i] == s.completed[i]);
    }
}

/// Every sequence of calls, each of which may fail, keeps the invariant; the id
/// counter never goes down and executed transactions are never taken back.
pub proof fn lemma_run(s: MultisigState, calls: Seq<Call>)
    requires
        s.wf(),
    ensures
        s.run(calls).wf(),
        s.run(calls).tx_counter >= s.tx_counter,
        s.completed.is_prefix_of(s.run(calls).completed),
    decreases calls.len(),
{
    if calls.len() > 0 {
        lemma_run(s, calls.drop_last());
        lemma_step(s.run(calls.drop_last()), calls.last());
    }
}

/// A new transaction gets the id after the counter, which no transaction in the
/// state has, pending or completed.
pub proof fn lemma_create_fresh_id(s: MultisigState, caller: Seq<char>, msg: TxMsgView)
    requires
        s.wf(),
        s.create_step(caller, msg).1 is Ok,
    ensures
        s.create_step(caller, msg).1 == Ok::<u128, ContractError>((s.tx_counter + 1) as u128),
        forall|i: int| 0 <= i < s.pending.len() ==> #[trigger] s.pending[i].id < s.tx_counter + 1,
        forall|i: int|
            0 <= i < s.completed.len() ==> #[trigger] s.completed[i].id < s.tx_counter + 1,
{
}

/// Ids given out by two creations, with any calls between them (executions and
/// failed calls included), strictly increase; the later one is new.
pub proof fn lemma_ids_strictly_increase(
    s: MultisigState,
    caller1: Seq<char>,
    msg1: TxMsgView,
    calls: Seq<Call>,
    caller2: Seq<char>,
    msg2: TxMsgView,
)
    requires
        s.wf(),
        s.create_step(caller1, msg1).1 is Ok,
        s.create_step(caller1, msg1).0.run(calls).create_step(caller2, msg2).1 is Ok,
    ensures
        ({
            let t = s.create_step(caller1, msg1).0.run(calls);
            let first = (s.tx_counter + 1) as u128;
            let second = (t.tx_counter + 1) as u128;
            &&& s.create_step(caller1, msg1).1 == Ok::<u128, ContractError>(first)
            &&& t.create_step(caller2, msg2).1 == Ok::<u128, ContractError>(second)
            &&& first < second
            &&& !has_id(t.pending, second)
            &&& !has_id(t.completed, second)
        }),
{
    let s1 = s.create_step(caller1, msg1).0;
    lemma_create_wf(s, caller1, msg1);
    lemma_run(s1, calls);
}

/// A transaction's confirmations: after creation by `proposer` and signatures by
/// `k` other admins, all distinct, it has `1 + k`; a second signature by any of
/// them, or by the proposer, fails with `AlreadySigned` and changes nothing.
pub proof fn lemma_confirmations_count(
    s: MultisigState,
    proposer: Seq<char>,
    msg: TxMsgView,
    signers: Seq<Seq<char>>,
)
    requires
        s.wf(),
        s.create_step(proposer, msg).1 is Ok,
        signers.no_duplicates(),
        forall|i: int|
            0 <= i < signers.len() ==> s.is_admin(#[trigger] signers[i]) && signers[i]
                != proposer,
        signers.len() < u32::MAX,
    ensures
        ({
            let id = (s.tx_counter + 1) as u128;
            let t = sign_all(s.create_step(proposer, msg).0, id, signers);
            &&& has_id(t.pending, id)
            &&& t.pending_tx(id).num_confirmations == 1 + signers.len()
            &&& forall|a: Seq<char>|
                (a == proposer || signers.contains(a)) ==> #[trigger] t.sign_step(a, id) == (
                    t,
                    Err::<(), ContractError>(ContractError::AlreadySigned(id)),
                )
        }),
{
    let id = (s.tx_counter + 1) as u128;
    let s1 = s.create_step(proposer, msg).0;
    lemma_create_wf(s, proposer, msg);
    let n = s.pending.len() as int;
    assert(s1.pending[n].id == id);
    assert(first_with_id(s1.pending, id, n));
    lemma_index_of_id(s1.pending, id);
    lemma_first_unique(s1.pending, id, n, index_of_id(s1.pending, id));
    assert forall|a: Seq<char>| s1.signed.contains((a, id)) <==> a == proposer by {
        if a != proposer && s1.signed.contains((a, id)) {
            assert(s.signed.contains((a, id)));
        }
    }
    lemma_sign_all(s1, id, proposer, signers);
}

/// The induction behind `lemma_confirmations_count`.
proof fn lemma_sign_all(s: MultisigState, id: u128, proposer: Seq<char>, signers: Seq<Seq<char>>)
    requires
        s.wf(),
        has_id(s.pending, id),
        s.pending_tx(id).num_confirmations == 1,
        s.is_admin(proposer),
        forall|a: Seq<char>| s.signed.contains((a, id)) <==> a == proposer,
        signers.no_duplicates(),
        forall|i: int|
            0 <= i < signers.len() ==> s.is_admin(#[trigger] signers[i]) && signers[i]
                != proposer,
        signers.len() < u32::MAX,
    ensures
        ({
            let t = sign_all(s, id, signers);
            &&& t.wf()
            &&& t.registry == s.registry
            &&& has_id(t.pending, id)
            &&& t.pending_tx(id).num_confirmations == 1 + signers.len()
            &&& forall|a: Seq<char>|
                #[trigger] t.signed.contains((a, id)) <==> (a == proposer || signers.contains(a))
            &&& forall|a: Seq<char>|
                (a == proposer || signers.contains(a)) ==> #[trigger] t.sign_step(a, id) == (
                    t,
                    Err::<(), ContractError>(ContractError::AlreadySigned(id)),
                )
        }),
    decreases signers.len(),
{
    if signers.len() > 0 {
        let init = signers.drop_last();
        let last = signers.last();
        assert(init.no_duplicates());
        assert forall|i: int| 0 <= i < init.len() implies s.is_admin(#[trigger] init[i])
            && init[i] != proposer by {
            assert(init[i] == signers[i]);
        }
        lemma_sign_all(s, id, proposer, init);
        let p = sign_all(s, id, init);
        assert(signers[signers.len() - 1] == last);
        assert(!init.contains(last));
        assert(!p.signed.contains((last, id)));
        lemma_sign_wf(p, last, id);
        let t = p.sign_step(last, id).0;
        lemma_index_of_id(p.pending, id);
        let idx = index_of_id(p.pending, id);
        assert(forall|i: int| 0 <= i < p.pending.len() ==> #[trigger] t.pending[i].id == p.pending[i].id);
        assert(first_with_id(t.pending, id, idx));
        lemma_index_of_id(t.pending, id);
        lemma_first_unique(t.pending, id, idx, index_of_id(t.pending, id));
        assert forall|a: Seq<char>| #[trigger]
            t.signed.contains((a, id)) <==> (a == proposer || signers.contains(a)) by {
            if init.contains(a) {
                let j = choose|j: int| 0 <= j < init.len() && init[j] == a;
                assert(signers[j] == a);
            }
            if signers.contains(a) && a != last {
                let j = choose|j: int| 0 <= j < signers.len() && signers[j] == a;
                assert(j != signers.len() - 1);
                assert(init[j] == a);
            }
        }
    }
}

/// Executing a transaction with fewer confirmations than the quorum fails with
/// `NotEnoughSignatures` and leaves it pending.
pub proof fn lemma_execute_under_quorum(s: MultisigState, id: u128)
    requires
        has_id(s.pending, id),
        s.pending_tx(id).num_confirmations < s.registry.quorum,
    ensures
        s.execute_step(id) == (
            s,
            Err::<TxMsgView, ContractError>(
                ContractError::NotEnoughSignatures {
                    quorum: s.registry.quorum,
                    num_signed: s.pending_tx(id).num_confirmations,
                },
            ),
        ),
        has_id(s.execute_step(id).0.pending, id),
{
}

/// Executing a transaction with enough confirmations, whose payload can be
/// applied, moves it from the pending to the completed ones, once: executing it
/// again fails with `NonExistentTx`, and no later calls make it pending again.
pub proof fn lemma_execute_once(s: MultisigState, id: u128, later: Seq<Call>)
    requires
        s.wf(),
        has_id(s.pending, id),
        s.pending_tx(id).num_confirmations >= s.registry.quorum,
        match s.pending_tx(id).tx_msg {
            TxMsgView::TxSelf(op) => s.registry.mutation(op) is Ok,
            TxMsgView::TxBank { .. } => true,
        },
    ensures
        ({
            let t = s.execute_step(id).0;
            &&& s.execute_step(id).1 == Ok::<TxMsgView, ContractError>(s.pending_tx(id).tx_msg)
            &&& !has_id(t.pending, id)
            &&& t.completed == s.completed.push(s.pending_tx(id))
            &&& !has_id(s.completed, id)
            &&& t.execute_step(id) == (
                t,
                Err::<TxMsgView, ContractError>(ContractError::NonExistentTx(id)),
            )
            &&& !has_id(t.run(later).pending, id)
            &&& has_id(t.run(later).completed, id)
        }),
{
    lemma_index_of_id(s.pending, id);
    let idx = index_of_id(s.pending, id);
    lemma_execute_wf(s, id);
    let t = s.execute_step(id).0;
    let n = s.completed.len() as int;
    assert(t.completed[n].id == id);
    assert(!has_id(t.pending, id));
    lemma_run(t, later);
    let u = t.run(later);
    assert(u.completed[n] == t.completed[n]);
}

/// Executing `UpdateQuorum` with a quorum above the number of admins fails and
/// changes nothing: the admins stay, and the transaction stays pending.
pub proof fn lemma_update_quorum_too_large(s: MultisigState, id: u128, quorum: u32)
    requires
        has_id(s.pending, id),
        s.pending_tx(id).tx_msg == TxMsgView::TxSelf(SelfTx::UpdateQuorum { quorum }),
        quorum > s.registry.admins.len(),
    ensures
        s.execute_step(id).0 == s,
        s.execute_step(id).1 is Err,
        s.pending_tx(id).num_confirmations >= s.registry.quorum ==> s.execute_step(id).1
            == Err::<TxMsgView, ContractError>(
            ContractError::WrongQuorum { quorum, owners: s.registry.admins.len() as u32 },
        ),
{
}

} // verus!
