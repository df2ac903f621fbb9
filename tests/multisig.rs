use multisig::contract::{
    create_tx, execute, execute_tx, get_quorum, instantiate, is_admin, list_admins,
    list_completed_txs, list_pending, list_signed, make_next_id, query, sign_tx, Multisig,
};
use multisig::error::ContractError;
use multisig::msg::{ExecuteMsg, InstantiateMsg, QueryMsg, QueryResponse, Response, Transfer};
use multisig::registry::AdminRegistry;
use multisig::signatures::SignatureTable;
use multisig::state::{
    Coin, CompletedTransactions, PendingTransactions, SelfTx, Transaction, TxMsg,
};

fn addr(s: &str) -> String {
    s.to_string()
}

fn atoms(amount: u128) -> Vec<Coin> {
    vec![Coin { denom: addr("atom"), amount }]
}

fn bank(to: &str, amount: u128) -> TxMsg {
    TxMsg::TxBank { to: addr(to), coins: atoms(amount) }
}

fn instantiate_contract() -> Multisig {
    instantiate(InstantiateMsg {
        owners: vec![addr("owner1"), addr("owner2"), addr("owner3")],
        quorum: 2,
    })
    .unwrap()
}

#[test]
fn test_instantiate() {
    let store = instantiate_contract();
    assert_eq!(
        list_admins(&store).admins,
        vec![addr("owner1"), addr("owner2"), addr("owner3")]
    );
    assert_eq!(get_quorum(&store), 2);
    assert!(list_pending(&store).transactions.0.is_empty());
    assert!(list_completed_txs(&store, None, None).transactions.0.is_empty());
}

#[test]
fn test_propose_unauthorized() {
    let mut store = instantiate_contract();
    let msg = ExecuteMsg::CreateTransaction { tx_msg: bank("owner", 5) };
    let r = execute(&mut store, &addr("unathorized"), msg);
    assert!(matches!(r, Err(ContractError::Unauthorized)));
    assert!(list_pending(&store).transactions.0.is_empty());
}

#[test]
fn test_propose() {
    let mut store = instantiate_contract();
    let msg = ExecuteMsg::CreateTransaction { tx_msg: bank("owner", 5) };
    execute(&mut store, &addr("owner1"), msg).unwrap();
    let resp = list_pending(&store);
    let mut tx = Transaction::new(bank("owner", 5), 1);
    tx.num_confirmations = 1;
    assert_eq!(&tx, resp.transactions.index(0).unwrap());
}

#[test]
fn test_sign_after_already_signed() {
    let mut store = instantiate_contract();
    let msg = ExecuteMsg::CreateTransaction { tx_msg: bank("owner", 5) };
    execute(&mut store, &addr("owner1"), msg).unwrap();
    let msg = ExecuteMsg::SignTransactions { tx_id: 1 };
    let r = execute(&mut store, &addr("owner1"), msg);
    assert!(matches!(r, Err(ContractError::AlreadySigned(1))));
}

#[test]
fn test_sign() {
    let mut store = instantiate_contract();
    let msg = ExecuteMsg::CreateTransaction { tx_msg: bank("owner", 5) };
    execute(&mut store, &addr("owner1"), msg).unwrap();
    execute(&mut store, &addr("owner2"), ExecuteMsg::SignTransactions { tx_id: 1 }).unwrap();
    execute(&mut store, &addr("owner3"), ExecuteMsg::SignTransactions { tx_id: 1 }).unwrap();

    let resp_owner1 = list_signed(&store, addr("owner2"), 1);
    let resp_owner2 = list_signed(&store, addr("owner2"), 1);
    let resp_owner3 = list_signed(&store, addr("owner3"), 1);
    assert_eq!(resp_owner1.signed, true);
    assert_eq!(resp_owner2.signed, true);
    assert_eq!(resp_owner3.signed, true);

    let resp = list_pending(&store);
    assert_eq!(resp.transactions.index(0).unwrap().num_confirmations, 3);
}

#[test]
fn test_execute_under_quorum() {
    let mut store = instantiate_contract();
    let msg = ExecuteMsg::CreateTransaction { tx_msg: bank("owner", 5) };
    execute(&mut store, &addr("owner1"), msg).unwrap();
    let r = execute(&mut store, &addr("owner1"), ExecuteMsg::ExecuteTransaction { tx_id: 1 });
    assert!(matches!(
        r,
        Err(ContractError::NotEnoughSignatures { quorum: 2, num_signed: 1 })
    ));
    assert_eq!(list_pending(&store).transactions.0.len(), 1);
}

#[test]
fn test_execute() {
    let mut store = instantiate_contract();
    let msg = ExecuteMsg::CreateTransaction { tx_msg: bank("owner", 5) };
    execute(&mut store, &addr("owner1"), msg).unwrap();
    execute(&mut store, &addr("owner2"), ExecuteMsg::SignTransactions { tx_id: 1 }).unwrap();
    execute(&mut store, &addr("owner3"), ExecuteMsg::SignTransactions { tx_id: 1 }).unwrap();
    assert!(list_signed(&store, addr("owner1"), 1).signed);
    assert!(list_signed(&store, addr("owner2"), 1).signed);
    assert!(list_signed(&store, addr("owner3"), 1).signed);

    let r = execute(&mut store, &addr("owner3"), ExecuteMsg::ExecuteTransaction { tx_id: 1 });
    match r {
        Ok(Response::Executed { transfer: Some(t) }) => {
            assert_eq!(t, Transfer { to: addr("owner"), coins: atoms(5) });
        }
        other => panic!("unexpected result {:?}", other),
    }
    assert!(list_pending(&store).transactions.0.is_empty());
    assert_eq!(list_completed_txs(&store, None, None).transactions.0.len(), 1);
}

#[test]
fn instantiate_checks_owners_and_quorum() {
    let r = instantiate(InstantiateMsg { owners: vec![], quorum: 1 });
    assert!(matches!(r, Err(ContractError::ZeroOwners)));
    let r = instantiate(InstantiateMsg { owners: vec![addr("a"), addr("b")], quorum: 3 });
    assert!(matches!(r, Err(ContractError::WrongQuorum { quorum: 3, owners: 2 })));
    let r = instantiate(InstantiateMsg { owners: vec![addr("a"), addr("b")], quorum: 0 });
    assert!(matches!(r, Err(ContractError::WrongQuorum { quorum: 0, owners: 2 })));
    for q in 1..=2u32 {
        let store = instantiate(InstantiateMsg { owners: vec![addr("a"), addr("b")], quorum: q })
            .unwrap();
        assert_eq!(get_quorum(&store), q);
        assert_eq!(list_admins(&store).admins, vec![addr("a"), addr("b")]);
    }
}

#[test]
fn ids_increase_across_executions_and_failures() {
    let mut store = instantiate(InstantiateMsg { owners: vec![addr("a")], quorum: 1 }).unwrap();
    let id1 = create_tx(&mut store, &addr("a"), bank("x", 1)).unwrap();
    execute_tx(&mut store, id1).unwrap();
    assert!(create_tx(&mut store, &addr("nobody"), bank("x", 1)).is_err());
    let remove_missing =
        TxMsg::TxSelf(SelfTx::RemoveOwner { owner: addr("missing"), quorum: None });
    let id2 = create_tx(&mut store, &addr("a"), remove_missing).unwrap();
    assert!(matches!(execute_tx(&mut store, id2), Err(ContractError::OwnerNotFound)));
    let id3 = create_tx(&mut store, &addr("a"), bank("x", 2)).unwrap();
    assert_eq!((id1, id2, id3), (1, 2, 3));
}

#[test]
fn confirmations_count_distinct_signers() {
    let owners: Vec<String> = (0..5).map(|i| format!("admin{}", i)).collect();
    let mut store = instantiate(InstantiateMsg { owners: owners.clone(), quorum: 5 }).unwrap();
    let id = create_tx(&mut store, &owners[0], bank("x", 1)).unwrap();
    for (k, signer) in owners.iter().enumerate().skip(1) {
        sign_tx(&mut store, signer, id).unwrap();
        assert_eq!(store.pending.find(id).unwrap().num_confirmations, 1 + k as u32);
    }
    for signer in owners.iter() {
        assert!(matches!(sign_tx(&mut store, signer, id), Err(ContractError::AlreadySigned(1))));
        assert_eq!(store.pending.find(id).unwrap().num_confirmations, 5);
    }
}

#[test]
fn sign_errors() {
    let mut store = instantiate_contract();
    assert!(matches!(sign_tx(&mut store, &addr("owner1"), 7), Err(ContractError::NonExistentTx(7))));
    assert!(matches!(sign_tx(&mut store, &addr("stranger"), 7), Err(ContractError::Unauthorized)));
    assert!(!list_signed(&store, addr("owner1"), 7).signed);
}

#[test]
fn execute_twice_fails() {
    let mut store = instantiate_contract();
    let id = create_tx(&mut store, &addr("owner1"), bank("x", 5)).unwrap();
    sign_tx(&mut store, &addr("owner2"), id).unwrap();
    execute_tx(&mut store, id).unwrap();
    assert!(matches!(execute_tx(&mut store, id), Err(ContractError::NonExistentTx(1))));
    assert_eq!(list_completed_txs(&store, None, None).transactions.0.len(), 1);
    assert!(matches!(sign_tx(&mut store, &addr("owner3"), id), Err(ContractError::NonExistentTx(1))));
}

#[test]
fn update_quorum_above_admin_count_changes_nothing() {
    let mut store = instantiate_contract();
    let op = TxMsg::TxSelf(SelfTx::UpdateQuorum { quorum: 4 });
    let id = create_tx(&mut store, &addr("owner1"), op).unwrap();
    sign_tx(&mut store, &addr("owner2"), id).unwrap();
    let r = execute_tx(&mut store, id);
    assert!(matches!(r, Err(ContractError::WrongQuorum { quorum: 4, owners: 3 })));
    assert_eq!(get_quorum(&store), 2);
    assert_eq!(list_admins(&store).admins.len(), 3);
    assert!(store.pending.find(id).is_some());
    assert!(list_completed_txs(&store, None, None).transactions.0.is_empty());
}

#[test]
fn self_administration_applies_on_execution() {
    let mut store = instantiate_contract();
    let add = TxMsg::TxSelf(SelfTx::AddOwner { owner: addr("owner4"), quorum: Some(3) });
    let id = create_tx(&mut store, &addr("owner1"), add).unwrap();
    sign_tx(&mut store, &addr("owner2"), id).unwrap();
    assert!(matches!(
        execute(&mut store, &addr("owner4"), ExecuteMsg::ExecuteTransaction { tx_id: id }),
        Err(ContractError::Unauthorized)
    ));
    let r = execute(&mut store, &addr("owner3"), ExecuteMsg::ExecuteTransaction { tx_id: id });
    assert!(matches!(r, Ok(Response::Executed { transfer: None })));
    assert_eq!(get_quorum(&store), 3);
    assert!(is_admin(&store, &addr("owner4")).is_ok());

    let remove = TxMsg::TxSelf(SelfTx::RemoveOwner { owner: addr("owner1"), quorum: None });
    let id = create_tx(&mut store, &addr("owner4"), remove).unwrap();
    sign_tx(&mut store, &addr("owner2"), id).unwrap();
    sign_tx(&mut store, &addr("owner1"), id).unwrap();
    execute_tx(&mut store, id).unwrap();
    assert_eq!(
        list_admins(&store).admins,
        vec![addr("owner2"), addr("owner3"), addr("owner4")]
    );
    assert!(matches!(is_admin(&store, &addr("owner1")), Err(ContractError::Unauthorized)));
}

#[test]
fn registry_mutations() {
    let mut reg = AdminRegistry::new(vec![addr("a"), addr("b")], 2).unwrap();
    assert!(matches!(reg.add_owner(addr("a"), None), Err(ContractError::OwnerAlreadyExists)));
    assert!(matches!(
        reg.add_owner(addr("c"), Some(4)),
        Err(ContractError::WrongQuorum { quorum: 4, owners: 3 })
    ));
    assert_eq!(reg.admins.len(), 2);
    assert!(matches!(
        reg.remove_owner(addr("a"), None),
        Err(ContractError::WrongQuorum { quorum: 2, owners: 1 })
    ));
    assert!(matches!(reg.remove_owner(addr("z"), None), Err(ContractError::OwnerNotFound)));
    reg.remove_owner(addr("a"), Some(1)).unwrap();
    assert_eq!(reg.admins, vec![addr("b")]);
    assert_eq!(reg.quorum, 1);
    assert!(matches!(
        reg.remove_owner(addr("b"), None),
        Err(ContractError::WrongQuorum { quorum: 1, owners: 0 })
    ));
    assert!(matches!(
        reg.update_quorum(0),
        Err(ContractError::WrongQuorum { quorum: 0, owners: 1 })
    ));
    reg.apply(SelfTx::AddOwner { owner: addr("c"), quorum: None }).unwrap();
    reg.apply(SelfTx::UpdateQuorum { quorum: 2 }).unwrap();
    assert_eq!(reg.admins, vec![addr("b"), addr("c")]);
    assert_eq!(reg.quorum, 2);
    assert!(reg.is_admin(&addr("c")));
    assert_eq!(reg.position(&addr("c")), Some(1));
}

#[test]
fn counter_overflow_is_reported() {
    let mut store = instantiate_contract();
    store.tx_counter = u128::MAX - 1;
    assert_eq!(make_next_id(&mut store), Ok(u128::MAX));
    assert!(matches!(make_next_id(&mut store), Err(ContractError::CounterOverflow)));
    assert!(matches!(
        create_tx(&mut store, &addr("owner1"), bank("x", 1)),
        Err(ContractError::CounterOverflow)
    ));
    assert_eq!(store.tx_counter, u128::MAX);
}

#[test]
fn scenario_transfer_with_two_of_three() {
    let mut store = instantiate(InstantiateMsg {
        owners: vec![addr("A"), addr("B"), addr("C")],
        quorum: 2,
    })
    .unwrap();
    let r = execute(&mut store, &addr("A"), ExecuteMsg::CreateTransaction { tx_msg: bank("X", 5) });
    assert!(matches!(r, Ok(Response::Created { tx_id: 1 })));
    assert_eq!(store.pending.find(1).unwrap().num_confirmations, 1);
    execute(&mut store, &addr("B"), ExecuteMsg::SignTransactions { tx_id: 1 }).unwrap();
    assert_eq!(store.pending.find(1).unwrap().num_confirmations, 2);
    let r = execute(&mut store, &addr("C"), ExecuteMsg::ExecuteTransaction { tx_id: 1 });
    match r {
        Ok(Response::Executed { transfer: Some(t) }) => {
            assert_eq!(t.to, addr("X"));
            assert_eq!(t.coins, atoms(5));
        }
        other => panic!("unexpected result {:?}", other),
    }
    assert!(store.pending.find(1).is_none());
    assert_eq!(store.completed.find(1).unwrap().id, 1);
    let r = execute(&mut store, &addr("A"), ExecuteMsg::ExecuteTransaction { tx_id: 1 });
    assert!(matches!(r, Err(ContractError::NonExistentTx(1))));
}

#[test]
fn scenario_proposer_signs_again() {
    let mut store = instantiate_contract();
    let id = create_tx(&mut store, &addr("owner1"), bank("x", 1)).unwrap();
    assert_eq!(id, 1);
    assert!(matches!(sign_tx(&mut store, &addr("owner1"), 1), Err(ContractError::AlreadySigned(1))));
    assert_eq!(store.pending.find(1).unwrap().num_confirmations, 1);
}

fn five_completed() -> Multisig {
    let mut store = instantiate(InstantiateMsg { owners: vec![addr("a")], quorum: 1 }).unwrap();
    for i in 0..5u128 {
        let id = create_tx(&mut store, &addr("a"), bank("x", i)).unwrap();
        execute_tx(&mut store, id).unwrap();
    }
    store
}

#[test]
fn scenario_completed_pagination() {
    let store = five_completed();
    let page = list_completed_txs(&store, Some(2), Some(2)).transactions;
    let ids: Vec<u128> = page.0.iter().map(|t| t.id).collect();
    assert_eq!(ids, vec![3, 4]);
    assert!(list_completed_txs(&store, Some(10), None).transactions.0.is_empty());
    assert!(list_completed_txs(&store, Some(10), Some(3)).transactions.0.is_empty());
}

#[test]
fn pagination_clamps() {
    let store = five_completed();
    let ids = |o: Option<u32>, l: Option<u32>| -> Vec<u128> {
        list_completed_txs(&store, o, l).transactions.0.iter().map(|t| t.id).collect()
    };
    assert_eq!(ids(None, None), vec![1, 2, 3, 4, 5]);
    assert_eq!(ids(Some(3), None), vec![4, 5]);
    assert_eq!(ids(None, Some(2)), vec![1, 2]);
    assert_eq!(ids(Some(4), Some(u32::MAX)), vec![5]);
    assert_eq!(ids(Some(5), Some(1)), Vec::<u128>::new());
    assert_eq!(ids(Some(1), Some(0)), Vec::<u128>::new());
}

#[test]
fn queries_dispatch() {
    let mut store = instantiate_contract();
    create_tx(&mut store, &addr("owner1"), bank("x", 1)).unwrap();
    match query(&store, QueryMsg::GetQuorum {}) {
        QueryResponse::GetQuorum(q) => assert_eq!(q, 2),
        other => panic!("unexpected {:?}", other),
    }
    match query(&store, QueryMsg::ListSigned { admin: addr("owner1"), tx_id: 1 }) {
        QueryResponse::ListSigned(r) => assert!(r.signed),
        other => panic!("unexpected {:?}", other),
    }
    match query(&store, QueryMsg::ListPending {}) {
        QueryResponse::ListPending(r) => assert_eq!(r.transactions.0[0].id, 1),
        other => panic!("unexpected {:?}", other),
    }
    match query(&store, QueryMsg::ListAdmins {}) {
        QueryResponse::ListAdmins(r) => assert_eq!(r.admins.len(), 3),
        other => panic!("unexpected {:?}", other),
    }
    match query(&store, QueryMsg::ListCompletedTxs { offset: None, limit: None }) {
        QueryResponse::ListCompletedTxs(r) => assert!(r.transactions.0.is_empty()),
        other => panic!("unexpected {:?}", other),
    }
}

#[test]
fn ledgers_find_and_remove() {
    let t = |id: u128| {
        let mut tx = Transaction::new(bank("x", id), id);
        tx.num_confirmations = 1;
        tx
    };
    let mut pending = PendingTransactions::new(vec![t(1), t(2), t(3)]);
    assert_eq!(pending.index(1).unwrap().id, 2);
    assert!(pending.index(3).is_none());
    pending.find_mut(2).unwrap().num_confirmations = 9;
    assert_eq!(pending.find(2).unwrap().num_confirmations, 9);
    assert!(pending.find_mut(8).is_none());
    assert_eq!(pending.remove(&t(2)).unwrap().num_confirmations, 9);
    assert!(pending.remove(&t(2)).is_none());
    assert_eq!(pending.0.iter().map(|t| t.id).collect::<Vec<_>>(), vec![1, 3]);
    pending.push(t(4));
    assert_eq!(pending.0.len(), 3);

    let mut completed = CompletedTransactions::new(vec![]);
    completed.push(t(5));
    assert_eq!(completed.find(5).unwrap().id, 5);
    completed.find_mut(5).unwrap().num_confirmations = 2;
    assert_eq!(completed.index(0).unwrap().num_confirmations, 2);
    assert!(completed.find(6).is_none());
}

#[test]
fn signature_table_is_write_once() {
    let mut table = SignatureTable::new();
    assert!(!table.has_signed(&addr("a"), 1));
    table.mark_signed(addr("a"), 1).unwrap();
    assert!(table.has_signed(&addr("a"), 1));
    assert!(!table.has_signed(&addr("a"), 2));
    assert!(!table.has_signed(&addr("b"), 1));
    assert_eq!(table.mark_signed(addr("a"), 1), Err(ContractError::AlreadySigned(1)));
}

#[test]
fn clones_keep_values() {
    let tx = Transaction::new(TxMsg::TxSelf(SelfTx::AddOwner { owner: addr("o"), quorum: Some(1) }), 3);
    assert_eq!(tx.clone(), tx);
    let coin = Coin { denom: addr("atom"), amount: 7 };
    assert_eq!(coin.clone(), coin);
}
