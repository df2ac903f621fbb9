use vstd::prelude::*;

use crate::error::ContractError;

verus! {

/// One admin's approval of one transaction.
#[derive(Debug)]
pub struct SignatureRecord {
    pub admin: String,
    pub tx_id: u128,
}

/// The approvals given so far; a pair that is absent has not signed.
#[derive(Debug)]
pub struct SignatureTable {
    pub records: Vec<SignatureRecord>,
}

impl View for SignatureTable {
    type V = Set<(Seq<char>, u128)>;

    /// The (admin, transaction id) pairs that have signed.
    open spec fn view(&self) -> Set<(Seq<char>, u128)> {
        Set::new(
            |p: (Seq<char>, u128)|
                exists|i: int|
                    0 <= i < self.records@.len() && #[trigger] self.records@[i].admin@ == p.0
                        && self.records@[i].tx_id == p.1,
        )
    }
}

impl SignatureTable {
    pub fn new() -> (r: Self)
        ensures
            r@ == Set::<(Seq<char>, u128)>::empty(),
    {
        let r = SignatureTable { records: Vec::new() };
        assert(r@ =~= Set::<(Seq<char>, u128)>::empty());
        r
    }

    /// Whether `admin` has signed the transaction `tx_id`.
    pub fn has_signed(&self, admin: &String, tx_id: u128) -> (r: bool)
        ensures
            r == self@.contains((admin@, tx_id)),
    {
        let mut i: usize = 0;
        while i < self.records.len()
            invariant
                0 <= i <= self.records@.len(),
                forall|j: int|
                    0 <= j < i ==> !(#[trigger] self.records@[j].admin@ == admin@
                        && self.records@[j].tx_id == tx_id),
            decreases self.records.len() - i,
        {
            if self.records[i].tx_id == tx_id && self.records[i].admin == *admin {
                assert(self@.contains((admin@, tx_id)));
                return true;
            }
            i = i + 1;
        }
        false
    }

    /// Records that `admin` signed `tx_id`, unless that pair is already recorded.
    pub fn mark_signed(&mut self, admin: String, tx_id: u128) -> (r: Result<(), ContractError>)
        ensures
            match r {
                Ok(()) => {
                    &&& !old(self)@.contains((admin@, tx_id))
                    &&& final(self)@ == old(self)@.insert((admin@, tx_id))
                },
                Err(e) => {
                    &&& old(self)@.contains((admin@, tx_id))
                    &&& e == ContractError::AlreadySigned(tx_id)
                    &&& final(self)@ == old(self)@
                },
            },
    {
        if self.has_signed(&admin, tx_id) {
            return Err(ContractError::AlreadySigned(tx_id));
        }
        let ghost before = self@;
        let ghost key = (admin@, tx_id);
        self.records.push(SignatureRecord { admin, tx_id });
        assert forall|p: (Seq<char>, u128)| #[trigger] self@.contains(p) == before.insert(key).contains(p) by {
            if before.contains(p) {
                let i = choose|i: int|
                    0 <= i < old(self).records@.len() && #[trigger] old(self).records@[i].admin@ == p.0
                        && old(self).records@[i].tx_id == p.1;
                assert(self.records@[i] == old(self).records@[i]);
            }
            if self@.contains(p) && p != key {
                let i = choose|i: int|
                    0 <= i < self.records@.len() && #[trigger] self.records@[i].admin@ == p.0
                        && self.records@[i].tx_id == p.1;
                assert(i < old(self).records@.len());
                assert(old(self).records@[i] == self.records@[i]);
            }
            if p == key {
                let n = old(self).records@.len() as int;
                assert(self.records@[n].admin@ == p.0);
            }
        }
        assert(self@ =~= before.insert(key));
        Ok(())
    }
}

} // verus!
