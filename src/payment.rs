use vstd::prelude::*;

use crate::book::{value_at, Book};
use crate::error::{outcome, Error};
use crate::Address;

verus! {

/// The abstract state of a value-transfer ledger.
pub struct PaymentState {
    /// The ledger's own identity; `transfer` pays out of its balance.
    pub address: Address,
    pub balances: Map<Address, i128>,
}

impl PaymentState {
    pub open spec fn empty(address: Address) -> PaymentState {
        PaymentState { address, balances: Map::empty() }
    }

    /// The balance of `who`, zero for an identity never written.
    pub open spec fn balance(self, who: Address) -> int {
        value_at(self.balances, who)
    }

    pub open spec fn valid(self) -> bool {
        forall|x: Address| #[trigger] self.balance(x) >= 0
    }

    pub open spec fn with_balance(self, who: Address, v: int) -> PaymentState {
        PaymentState { balances: self.balances.insert(who, v as i128), ..self }
    }

    pub open spec fn deposit_error(self, caller: Address, addr: Address, amount: i128) -> Option<
        Error,
    > {
        if caller != addr {
            Some(Error::NotAuthenticated)
        } else if amount <= 0 {
            Some(Error::InvalidAmount)
        } else if self.balance(addr) + amount > i128::MAX {
            Some(Error::Overflow)
        } else {
            None
        }
    }

    pub open spec fn withdraw_error(self, caller: Address, addr: Address, amount: i128) -> Option<
        Error,
    > {
        if caller != addr {
            Some(Error::NotAuthenticated)
        } else if amount <= 0 {
            Some(Error::InvalidAmount)
        } else if self.balance(addr) < amount {
            Some(Error::InsufficientBalance)
        } else {
            None
        }
    }

    pub open spec fn transfer_error(self, to: Address, amount: int) -> Option<Error> {
        if amount <= 0 {
            Some(Error::InvalidAmount)
        } else if self.balance(self.address) < amount {
            Some(Error::InsufficientBalance)
        } else if to != self.address && self.balance(to) + amount > i128::MAX {
            Some(Error::Overflow)
        } else {
            None
        }
    }

    /// `amount` paid out of the ledger's own balance to `to`.
    pub open spec fn paid(self, to: Address, amount: int) -> PaymentState {
        let s = self.with_balance(self.address, self.balance(self.address) - amount);
        s.with_balance(to, s.balance(to) + amount)
    }
}

/// A bank-account ledger that holds funds per identity and pays out of its
/// own balance.
pub struct PaymentContract {
    address: Address,
    balances: Book<Address, i128>,
}

impl View for PaymentContract {
    type V = PaymentState;

    closed spec fn view(&self) -> PaymentState {
        PaymentState { address: self.address, balances: self.balances@ }
    }
}

impl PaymentContract {
    pub closed spec fn wf(&self) -> bool {
        &&& self.balances.wf()
        &&& self@.valid()
    }

    /// A ledger at `address` with no balances.
    pub fn new(address: Address) -> (p: Self)
        ensures
            p.wf(),
            p@ == PaymentState::empty(address),
    {
        PaymentContract { address, balances: Book::new() }
    }

    /// Clears every balance.
    pub fn initialize(&mut self)
        ensures
            final(self).wf(),
            final(self)@ == PaymentState::empty(old(self)@.address),
    {
        self.balances = Book::new();
    }

    pub fn address(&self) -> (r: Address)
        ensures
            r == self@.address,
    {
        self.address
    }

    pub fn get_balance(&self, addr: Address) -> (r: i128)
        requires
            self.wf(),
        ensures
            r == self@.balance(addr),
            r >= 0,
    {
        assert(self@.balance(addr) >= 0);
        match self.balances.get(addr) {
            Some(v) => v,
            None => 0,
        }
    }

    fn write_balance(&mut self, who: Address, v: i128)
        requires
            old(self).wf(),
            v >= 0,
        ensures
            final(self).wf(),
            final(self)@ == old(self)@.with_balance(who, v as int),
    {
        self.balances.set(who, v);
        assert forall|x: Address| #[trigger] self@.balance(x) >= 0 by {
            if x != who {
                assert(old(self)@.balance(x) >= 0);
            }
        }
    }

    /// Credits `amount` to `addr`. The caller must be `addr`.
    pub fn deposit(&mut self, caller: Address, addr: Address, amount: i128) -> (r: Result<(), Error>)
        requires
            old(self).wf(),
        ensures
            final(self).wf(),
            r == outcome(old(self)@.deposit_error(caller, addr, amount)),
            r is Ok ==> final(self)@ == old(self)@.with_balance(
                addr,
                old(self)@.balance(addr) + amount,
            ),
            r is Err ==> final(self)@ == old(self)@,
    {
        if caller != addr {
            return Err(Error::NotAuthenticated);
        }
        if amount <= 0 {
            return Err(Error::InvalidAmount);
        }
        let prev = self.get_balance(addr);
        if prev > i128::MAX - amount {
            return Err(Error::Overflow);
        }
        self.write_balance(addr, prev + amount);
        Ok(())
    }

    /// Pays `amount` out of the ledger's own balance to `to`.
    pub fn transfer(&mut self, to: Address, amount: i128) -> (r: Result<(), Error>)
        requires
            old(self).wf(),
        ensures
            final(self).wf(),
            r == outcome(old(self)@.transfer_error(to, amount as int)),
            r is Ok ==> final(self)@ == old(self)@.paid(to, amount as int),
            r is Err ==> final(self)@ == old(self)@,
    {
        if amount <= 0 {
            return Err(Error::InvalidAmount);
        }
        let own = self.address;
        let available = self.get_balance(own);
        if available < amount {
            return Err(Error::InsufficientBalance);
        }
        if to != own {
            let held = self.get_balance(to);
            if held > i128::MAX - amount {
                return Err(Error::Overflow);
            }
        }
        self.write_balance(own, available - amount);
        let held = self.get_balance(to);
        self.write_balance(to, held + amount);
        Ok(())
    }

    /// Debits `amount` from `addr`. The caller must be `addr`.
    pub fn withdraw(&mut self, caller: Address, addr: Address, amount: i128) -> (r: Result<(), Error>)
        requires
            old(self).wf(),
        ensures
            final(self).wf(),
            r == outcome(old(self)@.withdraw_error(caller, addr, amount)),
            r is Ok ==> final(self)@ == old(self)@.with_balance(
                addr,
                old(self)@.balance(addr) - amount,
            ),
            r is Err ==> final(self)@ == old(self)@,
    {
        if caller != addr {
            return Err(Error::NotAuthenticated);
        }
        if amount <= 0 {
            return Err(Error::InvalidAmount);
        }
        let prev = self.get_balance(addr);
        if prev < amount {
            return Err(Error::InsufficientBalance);
        }
        self.write_balance(addr, prev - amount);
        Ok(())
    }
}

} // verus!
