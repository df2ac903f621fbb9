use vstd::prelude::*;

verus! {

/// Every way in which a call of the contract can be rejected.
#[derive(Debug, Clone, Copy, PartialEq, Eq, Structural)]
pub enum ContractError {
    /// Instantiation with an empty admin set.
    ZeroOwners,
    /// The quorum would be zero or exceed the number of admins.
    WrongQuorum { quorum: u32, owners: u32 },
    /// The caller is not an admin.
    Unauthorized,
    /// The caller already signed the transaction with this id.
    AlreadySigned(u128),
    /// No pending transaction has this id.
    NonExistentTx(u128),
    /// The transaction has fewer confirmations than the quorum.
    NotEnoughSignatures { quorum: u32, num_signed: u32 },
    /// The owner to remove is not an admin.
    OwnerNotFound,
    /// The owner to add is already an admin.
    OwnerAlreadyExists,
    /// A counter (transaction ids or confirmations) reached its largest value.
    CounterOverflow,
}

} // verus!
