use vstd::prelude::*;

use crate::dao::{DAOContract, DaoState};
use crate::token::{ProfitTokenContract, TokenState};
use crate::Address;

verus! {

/// The ledgers that `creator` created, each with its id, in id order; `daos`
/// holds each ledger's identity and creator at the position of its id.
pub open spec fn created_by(daos: Seq<(Address, Address)>, creator: Address) -> Seq<(u64, Address)>
    decreases daos.len(),
{
    if daos.len() == 0 {
        Seq::empty()
    } else {
        let rest = created_by(daos.drop_last(), creator);
        if daos.last().1 == creator {
            rest.push(((daos.len() - 1) as u64, daos.last().0))
        } else {
            rest
        }
    }
}

/// The ids from `start` up to `start + limit` (exclusive) that exist, each
/// with its ledger's identity.
pub open spec fn page(daos: Seq<(Address, Address)>, start: u64, limit: u64) -> Seq<(u64, Address)> {
    let end = if start + limit > daos.len() {
        daos.len() as int
    } else {
        start + limit
    };
    if start >= end {
        Seq::empty()
    } else {
        Seq::new((end - start) as nat, |j: int| ((start + j) as u64, daos[start + j].0))
    }
}

/// A registry that creates each new investment ledger together with its
/// token ledger and records it under a numeric id, counting up from zero.
pub struct DAOFactoryContract {
    daos: Vec<(Address, Address)>,
}

impl View for DAOFactoryContract {
    /// Each ledger's identity and creator, at the position of its id.
    type V = Seq<(Address, Address)>;

    closed spec fn view(&self) -> Seq<(Address, Address)> {
        self.daos@
    }
}

impl DAOFactoryContract {
    pub fn new() -> (f: Self)
        ensures
            f@ == Seq::<(Address, Address)>::empty(),
    {
        DAOFactoryContract { daos: Vec::new() }
    }

    /// Creates a token ledger at `token_address` with the new ledger as its
    /// admin, then an investment ledger at `dao_address` wired to it, and
    /// records the latter under the next id. Returns the id and both ledgers.
    pub fn create_dao(
        &mut self,
        name: String,
        description: String,
        funding_goal: u64,
        creator: Address,
        dao_address: Address,
        token_address: Address,
    ) -> (r: (u64, DAOContract, ProfitTokenContract))
        requires
            old(self)@.len() < u64::MAX,
        ensures
            r.0 == old(self)@.len(),
            final(self)@ == old(self)@.push((dao_address, creator)),
            r.1.wf(),
            r.1@ == (DaoState {
                initialized: true,
                name: name@,
                description: description@,
                funding_goal,
                creator,
                token: token_address,
                ..DaoState::empty(dao_address)
            }),
            r.2.wf(),
            r.2@ == (TokenState { admin: Some(dao_address), ..TokenState::empty(token_address) }),
    {
        let id = self.daos.len() as u64;
        let mut token = ProfitTokenContract::new(token_address);
        let _ = token.initialize_ptc(dao_address);
        let mut dao = DAOContract::new(dao_address);
        let _ = dao.initialize(name, description, funding_goal, creator, token_address);
        self.daos.push((dao_address, creator));
        (id, dao, token)
    }

    /// The identity of the ledger with id `dao_id`, if there is one.
    pub fn get_dao(&self, dao_id: u64) -> (r: Option<Address>)
        ensures
            r == (if dao_id < self@.len() {
                Some(self@[dao_id as int].0)
            } else {
                None::<Address>
            }),
    {
        if dao_id < self.daos.len() as u64 {
            Some(self.daos[dao_id as usize].0)
        } else {
            None
        }
    }

    pub fn get_dao_count(&self) -> (r: u64)
        ensures
            r == self@.len(),
    {
        self.daos.len() as u64
    }

    /// At most `limit` ledgers, with their ids, from id `start` on.
    pub fn get_daos_paginated(&self, start: u64, limit: u64) -> (r: Vec<(u64, Address)>)
        ensures
            r@ == page(self@, start, limit),
    {
        let total: usize = self.daos.len();
        let mut r: Vec<(u64, Address)> = Vec::new();
        if start < total as u64 {
            let first = start as usize;
            let room = total - first;
            let count: usize = if limit < room as u64 {
                limit as usize
            } else {
                room
            };
            let mut j: usize = 0;
            while j < count
                invariant
                    first == start,
                    total == self@.len(),
                    first + count <= total,
                    j <= count,
                    r@ == Seq::new(j as nat, |k: int| ((start + k) as u64, self@[start + k].0)),
                decreases count - j,
            {
                r.push(((first + j) as u64, self.daos[first + j].0));
                j = j + 1;
                assert(r@ =~= Seq::new(j as nat, |k: int| ((start + k) as u64, self@[start + k].0)));
            }
        }
        assert(r@ =~= page(self@, start, limit));
        r
    }

    /// The ledgers that `creator` created, with their ids, in id order.
    pub fn get_daos_by_creator(&self, creator: Address) -> (r: Vec<(u64, Address)>)
        ensures
            r@ == created_by(self@, creator),
    {
        let mut r: Vec<(u64, Address)> = Vec::new();
        let mut i: usize = 0;
        while i < self.daos.len()
            invariant
                i <= self@.len(),
                r@ == created_by(self@.take(i as int), creator),
            decreases self@.len() - i,
        {
            let (dao, who) = self.daos[i];
            assert(self@.take(i + 1).drop_last() =~= self@.take(i as int));
            if who == creator {
                r.push((i as u64, dao));
            }
            i = i + 1;
        }
        assert(self@.take(i as int) =~= self@);
        r
    }

    /// Every ledger's identity, in id order.
    pub fn get_all_daos(&self) -> (r: Vec<Address>)
        ensures
            r@ == self@.map_values(|e: (Address, Address)| e.0),
    {
        let mut r: Vec<Address> = Vec::new();
        let mut i: usize = 0;
        while i < self.daos.len()
            invariant
                i <= self@.len(),
                r@ == self@.map_values(|e: (Address, Address)| e.0).take(i as int),
            decreases self@.len() - i,
        {
            r.push(self.daos[i].0);
            i = i + 1;
            assert(r@ =~= self@.map_values(|e: (Address, Address)| e.0).take(i as int));
        }
        assert(self@.map_values(|e: (Address, Address)| e.0).take(i as int) =~= self@.map_values(
            |e: (Address, Address)| e.0,
        ));
        r
    }
}

} // verus!
