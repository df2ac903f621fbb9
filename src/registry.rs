use vstd::prelude::*;

use crate::error::ContractError;
use crate::state::SelfTx;

verus! {

/// Some entry of `admins` is the address `a`.
pub open spec fn is_member(admins: Seq<String>, a: Seq<char>) -> bool {
    exists|i: int| 0 <= i < admins.len() && #[trigger] admins[i]@ == a
}

/// `i` is the first position of the address `a` in `admins`.
pub open spec fn first_position(admins: Seq<String>, a: Seq<char>, i: int) -> bool {
    &&& 0 <= i < admins.len()
    &&& admins[i]@ == a
    &&& forall|j: int| 0 <= j < i ==> #[trigger] admins[j]@ != a
}

/// The first position of the address `a` in `admins`.
pub open spec fn position_spec(admins: Seq<String>, a: Seq<char>) -> int {
    choose|i: int| first_position(admins, a, i)
}

/// The error of a quorum that is zero or exceeds the number of owners.
pub open spec fn quorum_error(quorum: u32, owners: nat) -> Option<ContractError> {
    if quorum == 0 || quorum > owners {
        Some(ContractError::WrongQuorum { quorum, owners: owners as u32 })
    } else {
        None
    }
}

/// What an admin registry holds.
pub struct RegistryView {
    pub admins: Seq<String>,
    pub quorum: u32,
}

impl RegistryView {
    /// At least one admin and a quorum between one and their number.
    pub open spec fn wf(self) -> bool {
        0 < self.quorum <= self.admins.len()
    }

    /// The registry with new admins and quorum, or the error if the quorum does not fit them.
    pub open spec fn with_quorum(admins: Seq<String>, quorum: u32) -> Result<
        RegistryView,
        ContractError,
    > {
        match quorum_error(quorum, admins.len()) {
            Some(e) => Err(e),
            None => Ok(RegistryView { admins, quorum }),
        }
    }

    /// The outcome of a self-administration: the new registry, or why it is refused.
    pub open spec fn mutation(self, op: SelfTx) -> Result<RegistryView, ContractError> {
        match op {
            SelfTx::AddOwner { owner, quorum } => {
                if is_member(self.admins, owner@) {
                    Err(ContractError::OwnerAlreadyExists)
                } else {
                    RegistryView::with_quorum(
                        self.admins.push(owner),
                        quorum.unwrap_or(self.quorum),
                    )
                }
            },
            SelfTx::RemoveOwner { owner, quorum } => {
                if !is_member(self.admins, owner@) {
                    Err(ContractError::OwnerNotFound)
                } else {
                    RegistryView::with_quorum(
                        self.admins.remove(position_spec(self.admins, owner@)),
                        quorum.unwrap_or(self.quorum),
                    )
                }
            },
            SelfTx::UpdateQuorum { quorum } => RegistryView::with_quorum(self.admins, quorum),
        }
    }
}

/// A membership at `k` means a first one at or before `k`.
proof fn lemma_first_position_exists(admins: Seq<String>, a: Seq<char>, k: int)
    requires
        0 <= k < admins.len(),
        admins[k]@ == a,
    ensures
        first_position(admins, a, position_spec(admins, a)),
    decreases k,
{
    if exists|j: int| 0 <= j < k && #[trigger] admins[j]@ == a {
        let j = choose|j: int| 0 <= j < k && #[trigger] admins[j]@ == a;
        lemma_first_position_exists(admins, a, j);
    } else {
        assert(first_position(admins, a, k));
    }
}

/// Two first positions of one address are the same position.
proof fn lemma_first_position_unique(admins: Seq<String>, a: Seq<char>, i: int, j: int)
    requires
        first_position(admins, a, i),
        first_position(admins, a, j),
    ensures
        i == j,
{
    if i < j {
        assert(admins[i]@ != a);
    } else if j < i {
        assert(admins[j]@ != a);
    }
}

/// The set of admins and the number of signatures that a transaction needs.
#[derive(Debug)]
pub struct AdminRegistry {
    pub admins: Vec<String>,
    pub quorum: u32,
}

impl View for AdminRegistry {
    type V = RegistryView;

    open spec fn view(&self) -> RegistryView {
        RegistryView { admins: self.admins@, quorum: self.quorum }
    }
}

/// Checks a quorum against a number of owners.
fn check_quorum(quorum: u32, owners: u128) -> (r: Result<(), ContractError>)
    ensures
        match quorum_error(quorum, owners as nat) {
            Some(e) => r == Err::<(), ContractError>(e),
            None => r is Ok,
        },
{
    if quorum == 0 || quorum as u128 > owners {
        Err(ContractError::WrongQuorum { quorum, owners: owners as u32 })
    } else {
        Ok(())
    }
}

impl AdminRegistry {
    /// A registry of `owners` with `quorum`; both are checked.
    pub fn new(owners: Vec<String>, quorum: u32) -> (r: Result<Self, ContractError>)
        ensures
            match r {
                Ok(reg) => reg.admins@ == owners@ && reg.quorum == quorum && reg@.wf(),
                Err(e) => if owners@.len() == 0 {
                    e == ContractError::ZeroOwners
                } else {
                    quorum_error(quorum, owners@.len()) == Some(e)
                },
            },
            r is Ok <==> owners@.len() > 0 && quorum_error(quorum, owners@.len()) is None,
    {
        if owners.len() == 0 {
            return Err(ContractError::ZeroOwners);
        }
        match check_quorum(quorum, owners.len() as u128) {
            Err(e) => Err(e),
            Ok(()) => Ok(AdminRegistry { admins: owners, quorum }),
        }
    }

    /// The first position of `addr` among the admins, if it is one.
    pub fn position(&self, addr: &String) -> (r: Option<usize>)
        ensures
            match r {
                Some(i) => first_position(self.admins@, addr@, i as int) && i as int
                    == position_spec(self.admins@, addr@),
                None => !is_member(self.admins@, addr@),
            },
    {
        let mut i: usize = 0;
        while i < self.admins.len()
            invariant
                0 <= i <= self.admins@.len(),
                forall|j: int| 0 <= j < i ==> #[trigger] self.admins@[j]@ != addr@,
            decreases self.admins.len() - i,
        {
            if self.admins[i] == *addr {
                proof {
                    assert(first_position(self.admins@, addr@, i as int));
                    lemma_first_position_exists(self.admins@, addr@, i as int);
                    lemma_first_position_unique(
                        self.admins@,
                        addr@,
                        i as int,
                        position_spec(self.admins@, addr@),
                    );
                }
                return Some(i);
            }
            i = i + 1;
        }
        None
    }

    /// Whether `addr` is an admin.
    pub fn is_admin(&self, addr: &String) -> (r: bool)
        ensures
            r == is_member(self.admins@, addr@),
    {
        self.position(addr).is_some()
    }

    /// Adds an admin, and sets the quorum where one is given.
    pub fn add_owner(&mut self, owner: String, quorum: Option<u32>) -> (r: Result<(), ContractError>)
        ensures
            match old(self)@.mutation(SelfTx::AddOwner { owner, quorum }) {
                Ok(v) => r is Ok && final(self)@ == v,
                Err(e) => r == Err::<(), ContractError>(e) && final(self)@ == old(self)@,
            },
    {
        if self.is_admin(&owner) {
            return Err(ContractError::OwnerAlreadyExists);
        }
        let new_quorum = match quorum {
            Some(q) => q,
            None => self.quorum,
        };
        check_quorum(new_quorum, self.admins.len() as u128 + 1)?;
        self.admins.push(owner);
        self.quorum = new_quorum;
        Ok(())
    }

    /// Removes the first entry of an admin, and sets the quorum where one is given.
    pub fn remove_owner(&mut self, owner: String, quorum: Option<u32>) -> (r: Result<(), ContractError>)
        ensures
            match old(self)@.mutation(SelfTx::RemoveOwner { owner, quorum }) {
                Ok(v) => r is Ok && final(self)@ == v,
                Err(e) => r == Err::<(), ContractError>(e) && final(self)@ == old(self)@,
            },
    {
        let index = match self.position(&owner) {
            Some(i) => i,
            None => {
                return Err(ContractError::OwnerNotFound);
            },
        };
        let new_quorum = match quorum {
            Some(q) => q,
            None => self.quorum,
        };
        check_quorum(new_quorum, self.admins.len() as u128 - 1)?;
        self.admins.remove(index);
        self.quorum = new_quorum;
        Ok(())
    }

    /// Sets the quorum.
    pub fn update_quorum(&mut self, quorum: u32) -> (r: Result<(), ContractError>)
        ensures
            match old(self)@.mutation(SelfTx::UpdateQuorum { quorum }) {
                Ok(v) => r is Ok && final(self)@ == v,
                Err(e) => r == Err::<(), ContractError>(e) && final(self)@ == old(self)@,
            },
    {
        check_quorum(quorum, self.admins.len() as u128)?;
        self.quorum = quorum;
        Ok(())
    }

    /// Applies a self-administration, all or nothing.
    pub fn apply(&mut self, op: SelfTx) -> (r: Result<(), ContractError>)
        ensures
            match old(self)@.mutation(op) {
                Ok(v) => r is Ok && final(self)@ == v,
                Err(e) => r == Err::<(), ContractError>(e) && final(self)@ == old(self)@,
            },
    {
        match op {
            SelfTx::AddOwner { owner, quorum } => self.add_owner(owner, quorum),
            SelfTx::RemoveOwner { owner, quorum } => self.remove_owner(owner, quorum),
            SelfTx::UpdateQuorum { quorum } => self.update_quorum(quorum),
        }
    }
}

} // verus!
