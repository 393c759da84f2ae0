use vstd::prelude::*;

use crate::book::{lemma_sum_bounds, lemma_sum_insert, lemma_sum_push, sum_over, value_at, Book};
use crate::error::{outcome, Error};
use crate::Address;

verus! {

/// The abstract state of a voting-weight token ledger.
pub struct TokenState {
    /// The ledger's own identity.
    pub address: Address,
    /// The only identity that may mint; `None` until the ledger is initialized.
    pub admin: Option<Address>,
    pub total_supply: int,
    /// The balance of each identity whose balance was ever written.
    pub balances: Map<Address, i128>,
    /// Those identities, in the order in which each was first written.
    pub holders: Seq<Address>,
    /// What each spender may still move out of each owner's balance.
    pub allowances: Map<(Address, Address), i128>,
}

/// One state-changing call on a token ledger, with its authenticated caller.
pub enum TokenCall {
    Mint { caller: Address, to: Address, amount: i128 },
    Burn { caller: Address, from: Address, amount: i128 },
    Transfer { caller: Address, from: Address, to: Address, amount: i128 },
    Approve { caller: Address, owner: Address, spender: Address, amount: i128 },
    TransferFrom { caller: Address, spender: Address, from: Address, to: Address, amount: i128 },
}

impl TokenState {
    /// A ledger with no admin, no supply and no entries.
    pub open spec fn empty(address: Address) -> TokenState {
        TokenState {
            address,
            admin: None,
            total_supply: 0,
            balances: Map::empty(),
            holders: Seq::empty(),
            allowances: Map::empty(),
        }
    }

    /// The balance of `who`, zero for an identity never written.
    pub open spec fn balance(self, who: Address) -> int {
        value_at(self.balances, who)
    }

    /// The allowance of `spender` over `owner`'s balance, zero if never set.
    pub open spec fn allowance(self, owner: Address, spender: Address) -> int {
        value_at(self.allowances, (owner, spender))
    }

    /// The sum of the balances of every identity ever written.
    pub open spec fn held(self) -> int {
        sum_over(self.holders, self.balances)
    }

    /// What every reachable state satisfies: no negative balance or
    /// allowance, and a total supply equal to the sum of all balances.
    pub open spec fn valid(self) -> bool {
        &&& self.holders.no_duplicates()
        &&& forall|x: Address| self.balances.contains_key(x) <==> self.holders.contains(x)
        &&& forall|x: Address| #[trigger] self.balance(x) >= 0
        &&& forall|o: Address, s: Address| #[trigger] self.allowance(o, s) >= 0
        &&& self.total_supply == self.held()
        &&& self.total_supply <= i128::MAX
    }

    pub open spec fn with_balance(self, who: Address, v: int) -> TokenState {
        TokenState {
            balances: self.balances.insert(who, v as i128),
            holders: if self.balances.contains_key(who) {
                self.holders
            } else {
                self.holders.push(who)
            },
            ..self
        }
    }

    pub open spec fn with_allowance(self, owner: Address, spender: Address, v: int) -> TokenState {
        TokenState { allowances: self.allowances.insert((owner, spender), v as i128), ..self }
    }

    pub open spec fn mint_error(self, caller: Address, amount: i128) -> Option<Error> {
        if self.admin != Some(caller) {
            Some(Error::NotAuthenticated)
        } else if amount <= 0 {
            Some(Error::InvalidAmount)
        } else if self.total_supply + amount > i128::MAX {
            Some(Error::Overflow)
        } else {
            None
        }
    }

    pub open spec fn minted(self, to: Address, amount: int) -> TokenState {
        TokenState {
            total_supply: self.total_supply + amount,
            ..self.with_balance(to, self.balance(to) + amount)
        }
    }

    /// The check shared by `burn` and `transfer`.
    pub open spec fn debit_error(self, caller: Address, from: Address, amount: i128) -> Option<
        Error,
    > {
        if caller != from {
            Some(Error::NotAuthenticated)
        } else if amount <= 0 {
            Some(Error::InvalidAmount)
        } else if self.balance(from) < amount {
            Some(Error::InsufficientBalance)
        } else {
            None
        }
    }

    pub open spec fn burned(self, from: Address, amount: int) -> TokenState {
        TokenState {
            total_supply: self.total_supply - amount,
            ..self.with_balance(from, self.balance(from) - amount)
        }
    }

    /// `amount` taken from `from` and then given to `to`.
    pub open spec fn moved(self, from: Address, to: Address, amount: int) -> TokenState {
        let s = self.with_balance(from, self.balance(from) - amount);
        s.with_balance(to, s.balance(to) + amount)
    }

    pub open spec fn approve_error(self, caller: Address, owner: Address, amount: i128) -> Option<
        Error,
    > {
        if caller != owner {
            Some(Error::NotAuthenticated)
        } else if amount < 0 {
            Some(Error::InvalidAmount)
        } else {
            None
        }
    }

    pub open spec fn transfer_from_error(
        self,
        caller: Address,
        spender: Address,
        from: Address,
        amount: i128,
    ) -> Option<Error> {
        if caller != spender {
            Some(Error::NotAuthenticated)
        } else if amount <= 0 {
            Some(Error::InvalidAmount)
        } else if self.allowance(from, spender) < amount {
            Some(Error::InsufficientAllowance)
        } else if self.balance(from) < amount {
            Some(Error::InsufficientBalance)
        } else {
            None
        }
    }

    pub open spec fn spent(self, spender: Address, from: Address, to: Address, amount: int) -> TokenState {
        self.with_allowance(from, spender, self.allowance(from, spender) - amount).moved(
            from,
            to,
            amount,
        )
    }

    /// Why `c` fails on this state, if it does.
    pub open spec fn check(self, c: TokenCall) -> Option<Error> {
        match c {
            TokenCall::Mint { caller, to, amount } => self.mint_error(caller, amount),
            TokenCall::Burn { caller, from, amount } => self.debit_error(caller, from, amount),
            TokenCall::Transfer { caller, from, to, amount } => self.debit_error(
                caller,
                from,
                amount,
            ),
            TokenCall::Approve { caller, owner, spender, amount } => self.approve_error(
                caller,
                owner,
                amount,
            ),
            TokenCall::TransferFrom { caller, spender, from, to, amount } => self.transfer_from_error(
                caller,
                spender,
                from,
                amount,
            ),
        }
    }

    /// The state after `c` succeeds.
    pub open spec fn effect(self, c: TokenCall) -> TokenState {
        match c {
            TokenCall::Mint { caller, to, amount } => self.minted(to, amount as int),
            TokenCall::Burn { caller, from, amount } => self.burned(from, amount as int),
            TokenCall::Transfer { caller, from, to, amount } => self.moved(from, to, amount as int),
            TokenCall::Approve { caller, owner, spender, amount } => self.with_allowance(
                owner,
                spender,
                amount as int,
            ),
            TokenCall::TransferFrom { caller, spender, from, to, amount } => self.spent(
                spender,
                from,
                to,
                amount as int,
            ),
        }
    }

    /// The state after `c`: its effect where it succeeds, no change where it fails.
    pub open spec fn apply(self, c: TokenCall) -> TokenState {
        if self.check(c) is Some {
            self
        } else {
            self.effect(c)
        }
    }

    /// The state after each call of `calls` in turn.
    pub open spec fn run(self, calls: Seq<TokenCall>) -> TokenState
        decreases calls.len(),
    {
        if calls.len() == 0 {
            self
        } else {
            self.apply(calls[0]).run(calls.drop_first())
        }
    }
}

/// Writing one balance moves the sum of all balances by the difference and
/// keeps the record of holders consistent.
proof fn lemma_with_balance(s: TokenState, who: Address, v: int)
    requires
        s.holders.no_duplicates(),
        forall|x: Address| s.balances.contains_key(x) <==> s.holders.contains(x),
        i128::MIN <= v <= i128::MAX,
    ensures
        s.with_balance(who, v).holders.no_duplicates(),
        forall|x: Address|
            s.with_balance(who, v).balances.contains_key(x) <==> s.with_balance(
                who,
                v,
            ).holders.contains(x),
        s.with_balance(who, v).held() == s.held() + v - s.balance(who),
        s.with_balance(who, v).balance(who) == v,
        forall|x: Address| x != who ==> s.with_balance(who, v).balance(x) == s.balance(x),
        s.holders.is_prefix_of(s.with_balance(who, v).holders),
{
    let t = s.with_balance(who, v);
    if s.balances.contains_key(who) {
        lemma_sum_insert(s.holders, s.balances, who, v as i128);
        assert(s.holders.is_prefix_of(t.holders)) by {
            assert(s.holders.subrange(0, s.holders.len() as int) =~= s.holders);
        }
    } else {
        lemma_sum_insert(s.holders, s.balances, who, v as i128);
        lemma_sum_push(s.holders, t.balances, who);
        assert(t.holders.no_duplicates()) by {
            assert forall|i: int, j: int| 0 <= i < j < t.holders.len() implies t.holders[i]
                != t.holders[j] by {
                if j == s.holders.len() {
                    assert(s.holders.contains(s.holders[i]));
                }
            }
        }
        assert forall|x: Address| t.balances.contains_key(x) <==> t.holders.contains(x) by {
            if x == who {
                assert(t.holders[s.holders.len() as int] == who);
            } else if s.holders.contains(x) {
                let i = choose|i: int| 0 <= i < s.holders.len() && s.holders[i] == x;
                assert(t.holders[i] == x);
            } else if t.holders.contains(x) {
                let i = choose|i: int| 0 <= i < t.holders.len() && t.holders[i] == x;
                assert(s.holders[i] == x);
            }
        }
        assert(s.holders.is_prefix_of(t.holders)) by {
            assert(t.holders.subrange(0, s.holders.len() as int) =~= s.holders);
        }
    }
}

/// In a valid state no single balance exceeds the total supply.
pub proof fn lemma_balance_le_supply(s: TokenState, who: Address)
    requires
        s.valid(),
    ensures
        0 <= s.balance(who) <= s.total_supply,
{
    assert forall|x: Address| s.holders.contains(x) implies value_at(s.balances, x) >= 0 by {
        assert(s.balance(x) >= 0);
    }
    lemma_sum_bounds(s.holders, s.balances, who);
    assert(s.balance(who) >= 0);
    if !s.holders.contains(who) {
        assert(!s.balances.contains_key(who));
    }
}

/// Writing a non-negative balance keeps a state valid when the total supply
/// moves by the same difference.
proof fn lemma_write_valid(s: TokenState, who: Address, v: int, supply: int)
    requires
        s.valid(),
        0 <= v <= i128::MAX,
        supply == s.total_supply + v - s.balance(who),
        supply <= i128::MAX,
    ensures
        (TokenState { total_supply: supply, ..s.with_balance(who, v) }).valid(),
        s.holders.is_prefix_of(s.with_balance(who, v).holders),
{
    lemma_with_balance(s, who, v);
    let t = TokenState { total_supply: supply, ..s.with_balance(who, v) };
    assert forall|x: Address| #[trigger] t.balance(x) >= 0 by {
        if x != who {
            assert(s.balance(x) >= 0);
        }
    }
    assert forall|o: Address, sp: Address| #[trigger] t.allowance(o, sp) >= 0 by {
        assert(s.allowance(o, sp) >= 0);
    }
}

/// Every call keeps a valid state valid, and never forgets a holder.
proof fn lemma_apply_valid(s: TokenState, c: TokenCall)
    requires
        s.valid(),
    ensures
        s.apply(c).valid(),
        s.holders.is_prefix_of(s.apply(c).holders),
{
    assert(s.holders.is_prefix_of(s.holders)) by {
        assert(s.holders.subrange(0, s.holders.len() as int) =~= s.holders);
    }
    if s.check(c) is None {
        match c {
            TokenCall::Mint { caller, to, amount } => {
                lemma_balance_le_supply(s, to);
                lemma_write_valid(s, to, s.balance(to) + amount, s.total_supply + amount);
            },
            TokenCall::Burn { caller, from, amount } => {
                lemma_balance_le_supply(s, from);
                lemma_write_valid(s, from, s.balance(from) - amount, s.total_supply - amount);
            },
            TokenCall::Transfer { caller, from, to, amount } => {
                lemma_moved_valid(s, from, to, amount as int);
            },
            TokenCall::Approve { caller, owner, spender, amount } => {
                lemma_allowance_valid(s, owner, spender, amount as int);
            },
            TokenCall::TransferFrom { caller, spender, from, to, amount } => {
                let v = s.allowance(from, spender) - amount;
                lemma_allowance_valid(s, from, spender, v);
                lemma_moved_valid(s.with_allowance(from, spender, v), from, to, amount as int);
                assert(s.with_allowance(from, spender, v).holders == s.holders);
            },
        }
    }
}

proof fn lemma_allowance_valid(s: TokenState, owner: Address, spender: Address, v: int)
    requires
        s.valid(),
        0 <= v <= i128::MAX,
    ensures
        s.with_allowance(owner, spender, v).valid(),
{
    let t = s.with_allowance(owner, spender, v);
    assert forall|x: Address| #[trigger] t.balance(x) >= 0 by {
        assert(s.balance(x) >= 0);
    }
    assert forall|o: Address, sp: Address| #[trigger] t.allowance(o, sp) >= 0 by {
        assert(s.allowance(o, sp) >= 0);
    }
}

proof fn lemma_moved_valid(s: TokenState, from: Address, to: Address, amount: int)
    requires
        s.valid(),
        0 < amount <= s.balance(from),
    ensures
        s.moved(from, to, amount).valid(),
        s.holders.is_prefix_of(s.moved(from, to, amount).holders),
        s.moved(from, to, amount).total_supply == s.total_supply,
{
    lemma_balance_le_supply(s, from);
    let v1 = s.balance(from) - amount;
    lemma_write_valid(s, from, v1, s.total_supply - amount);
    let s1 = TokenState { total_supply: s.total_supply - amount, ..s.with_balance(from, v1) };
    lemma_balance_le_supply(s1, to);
    let v2 = s1.balance(to) + amount;
    lemma_write_valid(s1, to, v2, s.total_supply);
    assert(s.moved(from, to, amount) == TokenState {
        total_supply: s.total_supply,
        ..s1.with_balance(to, v2)
    });
    assert(s.holders.is_prefix_of(s.moved(from, to, amount).holders)) by {
        let h = s.moved(from, to, amount).holders;
        assert(h.subrange(0, s.holders.len() as int) =~= s1.holders.subrange(
            0,
            s.holders.len() as int,
        ));
    }
}

proof fn lemma_run_valid(s: TokenState, calls: Seq<TokenCall>)
    requires
        s.valid(),
    ensures
        s.run(calls).valid(),
        s.holders.is_prefix_of(s.run(calls).holders),
    decreases calls.len(),
{
    if calls.len() > 0 {
        lemma_apply_valid(s, calls[0]);
        lemma_run_valid(s.apply(calls[0]), calls.drop_first());
        let t = s.run(calls);
        let a = s.apply(calls[0]);
        assert(s.holders.is_prefix_of(t.holders)) by {
            assert(t.holders.subrange(0, s.holders.len() as int) =~= a.holders.subrange(
                0,
                s.holders.len() as int,
            ));
        }
    }
}

/// Conservation: whatever sequence of mints, burns, transfers, approvals and
/// delegated transfers is run on a valid ledger, the total supply afterwards
/// equals the sum of the balances of every identity whose balance was ever
/// written, and every identity written before stays recorded.
pub proof fn lemma_conservation(s: TokenState, calls: Seq<TokenCall>)
    requires
        s.valid(),
    ensures
        s.run(calls).total_supply == sum_over(s.run(calls).holders, s.run(calls).balances),
        s.holders.is_prefix_of(s.run(calls).holders),
{
    lemma_run_valid(s, calls);
}

/// No negative balance or allowance is ever observable: after any sequence
/// of calls on a valid ledger, every balance and every allowance is at least
/// zero.
pub proof fn lemma_never_negative(s: TokenState, calls: Seq<TokenCall>)
    requires
        s.valid(),
    ensures
        forall|x: Address| #[trigger] s.run(calls).balance(x) >= 0,
        forall|o: Address, sp: Address| #[trigger] s.run(calls).allowance(o, sp) >= 0,
{
    lemma_run_valid(s, calls);
}

/// A voting-weight token ledger: balances, allowances and a total supply,
/// with minting reserved to an admin.
pub struct ProfitTokenContract {
    address: Address,
    admin: Option<Address>,
    total_supply: i128,
    balances: Book<Address, i128>,
    allowances: Book<(Address, Address), i128>,
}

impl View for ProfitTokenContract {
    type V = TokenState;

    closed spec fn view(&self) -> TokenState {
        TokenState {
            address: self.address,
            admin: self.admin,
            total_supply: self.total_supply as int,
            balances: self.balances@,
            holders: self.balances.keys(),
            allowances: self.allowances@,
        }
    }
}

impl ProfitTokenContract {
    pub closed spec fn wf(&self) -> bool {
        &&& self.balances.wf()
        &&& self.allowances.wf()
        &&& self@.valid()
    }

    pub proof fn lemma_wf_valid(&self)
        requires
            self.wf(),
        ensures
            self@.valid(),
    {
    }

    /// A ledger at `address`, not yet initialized.
    pub fn new(address: Address) -> (t: Self)
        ensures
            t.wf(),
            t@ == TokenState::empty(address),
    {
        let t = ProfitTokenContract {
            address,
            admin: None,
            total_supply: 0,
            balances: Book::new(),
            allowances: Book::new(),
        };
        assert(t@.held() == 0);
        t
    }

    /// Makes `admin` the minting authority, with zero supply and no
    /// balances or allowances. Fails if the ledger already has an admin.
    pub fn initialize_ptc(&mut self, admin: Address) -> (r: Result<(), Error>)
        requires
            old(self).wf(),
        ensures
            final(self).wf(),
            r == outcome(
                if old(self)@.admin is Some {
                    Some(Error::AlreadyInitialized)
                } else {
                    None
                },
            ),
            r is Ok ==> final(self)@ == (TokenState {
                admin: Some(admin),
                ..TokenState::empty(old(self)@.address)
            }),
            r is Err ==> final(self)@ == old(self)@,
    {
        if self.admin.is_some() {
            return Err(Error::AlreadyInitialized);
        }
        let address = self.address;
        *self = ProfitTokenContract::new(address);
        self.admin = Some(admin);
        Ok(())
    }

    pub fn address(&self) -> (r: Address)
        ensures
            r == self@.address,
    {
        self.address
    }

    pub fn get_admin(&self) -> (r: Option<Address>)
        ensures
            r == self@.admin,
    {
        self.admin
    }

    pub fn balance(&self, who: Address) -> (r: i128)
        requires
            self.wf(),
        ensures
            r == self@.balance(who),
            r >= 0,
    {
        assert(self@.balance(who) >= 0);
        match self.balances.get(who) {
            Some(v) => v,
            None => 0,
        }
    }

    pub fn allowance(&self, owner: Address, spender: Address) -> (r: i128)
        requires
            self.wf(),
        ensures
            r == self@.allowance(owner, spender),
            r >= 0,
    {
        assert(self@.allowance(owner, spender) >= 0);
        match self.allowances.get((owner, spender)) {
            Some(v) => v,
            None => 0,
        }
    }

    pub fn total_supply(&self) -> (r: i128)
        requires
            self.wf(),
        ensures
            r == self@.total_supply,
            r >= 0,
    {
        proof {
            lemma_balance_le_supply(self@, self.address);
        }
        self.total_supply
    }

    /// Writes one balance and sets the total supply; the caller has checked
    /// that the result is valid.
    fn write_balance(&mut self, who: Address, v: i128, supply: i128)
        requires
            old(self).wf(),
            v >= 0,
            supply == old(self)@.total_supply + v - old(self)@.balance(who),
        ensures
            final(self).wf(),
            final(self)@ == (TokenState { total_supply: supply as int, ..old(self)@.with_balance(who, v as int) }),
    {
        proof {
            self.balances.lemma_keys();
            lemma_write_valid(self@, who, v as int, supply as int);
        }
        self.balances.set(who, v);
        self.total_supply = supply;
        proof {
            self.balances.lemma_keys();
        }
    }

    /// Moves `amount` from `from` to `to`; the caller has checked the balance.
    fn move_balance(&mut self, from: Address, to: Address, amount: i128)
        requires
            old(self).wf(),
            0 < amount <= old(self)@.balance(from),
        ensures
            final(self).wf(),
            final(self)@ == old(self)@.moved(from, to, amount as int),
    {
        let ghost s0 = self@;
        proof {
            lemma_balance_le_supply(s0, from);
        }
        let supply = self.total_supply;
        let fb = self.balance(from);
        self.write_balance(from, fb - amount, supply - amount);
        let tb = self.balance(to);
        proof {
            lemma_balance_le_supply(self@, to);
        }
        self.write_balance(to, tb + amount, supply);
    }

    /// Mints `amount` new tokens to `to`. The caller must be the admin.
    pub fn mint(&mut self, caller: Address, to: Address, amount: i128) -> (r: Result<(), Error>)
        requires
            old(self).wf(),
        ensures
            final(self).wf(),
            r == outcome(old(self)@.mint_error(caller, amount)),
            final(self)@ == old(self)@.apply(TokenCall::Mint { caller, to, amount }),
    {
        match self.admin {
            Some(a) => {
                if a != caller {
                    return Err(Error::NotAuthenticated);
                }
            },
            None => {
                return Err(Error::NotAuthenticated);
            },
        }
        if amount <= 0 {
            return Err(Error::InvalidAmount);
        }
        if self.total_supply > i128::MAX - amount {
            return Err(Error::Overflow);
        }
        let prev = self.balance(to);
        proof {
            lemma_balance_le_supply(self@, to);
        }
        let supply = self.total_supply + amount;
        self.write_balance(to, prev + amount, supply);
        Ok(())
    }

    /// Destroys `amount` of `from`'s tokens. The caller must be `from`.
    pub fn burn(&mut self, caller: Address, from: Address, amount: i128) -> (r: Result<(), Error>)
        requires
            old(self).wf(),
        ensures
            final(self).wf(),
            r == outcome(old(self)@.debit_error(caller, from, amount)),
            final(self)@ == old(self)@.apply(TokenCall::Burn { caller, from, amount }),
    {
        if caller != from {
            return Err(Error::NotAuthenticated);
        }
        if amount <= 0 {
            return Err(Error::InvalidAmount);
        }
        let prev = self.balance(from);
        if prev < amount {
            return Err(Error::InsufficientBalance);
        }
        proof {
            lemma_balance_le_supply(self@, from);
        }
        let supply = self.total_supply - amount;
        self.write_balance(from, prev - amount, supply);
        Ok(())
    }

    /// Moves `amount` from `from` to `to`. The caller must be `from`.
    pub fn transfer(&mut self, caller: Address, from: Address, to: Address, amount: i128) -> (r:
        Result<(), Error>)
        requires
            old(self).wf(),
        ensures
            final(self).wf(),
            r == outcome(old(self)@.debit_error(caller, from, amount)),
            final(self)@ == old(self)@.apply(TokenCall::Transfer { caller, from, to, amount }),
    {
        if caller != from {
            return Err(Error::NotAuthenticated);
        }
        if amount <= 0 {
            return Err(Error::InvalidAmount);
        }
        if self.balance(from) < amount {
            return Err(Error::InsufficientBalance);
        }
        self.move_balance(from, to, amount);
        Ok(())
    }

    /// Sets (does not add to) what `spender` may move out of `owner`'s
    /// balance. The caller must be `owner`.
    pub fn approve(&mut self, caller: Address, owner: Address, spender: Address, amount: i128) -> (r:
        Result<(), Error>)
        requires
            old(self).wf(),
        ensures
            final(self).wf(),
            r == outcome(old(self)@.approve_error(caller, owner, amount)),
            final(self)@ == old(self)@.apply(TokenCall::Approve { caller, owner, spender, amount }),
    {
        if caller != owner {
            return Err(Error::NotAuthenticated);
        }
        if amount < 0 {
            return Err(Error::InvalidAmount);
        }
        proof {
            lemma_allowance_valid(self@, owner, spender, amount as int);
        }
        self.allowances.set((owner, spender), amount);
        Ok(())
    }

    /// Moves `amount` from `from` to `to` on behalf of `spender`, drawing on
    /// the allowance that `from` gave `spender`. The caller must be `spender`.
    pub fn transfer_from(
        &mut self,
        caller: Address,
        spender: Address,
        from: Address,
        to: Address,
        amount: i128,
    ) -> (r: Result<(), Error>)
        requires
            old(self).wf(),
        ensures
            final(self).wf(),
            r == outcome(old(self)@.transfer_from_error(caller, spender, from, amount)),
            final(self)@ == old(self)@.apply(
                TokenCall::TransferFrom { caller, spender, from, to, amount },
            ),
    {
        if caller != spender {
            return Err(Error::NotAuthenticated);
        }
        if amount <= 0 {
            return Err(Error::InvalidAmount);
        }
        let allowed = self.allowance(from, spender);
        if allowed < amount {
            return Err(Error::InsufficientAllowance);
        }
        if self.balance(from) < amount {
            return Err(Error::InsufficientBalance);
        }
        proof {
            lemma_allowance_valid(self@, from, spender, allowed - amount);
        }
        self.allowances.set((from, spender), allowed - amount);
        self.move_balance(from, to, amount);
        Ok(())
    }
}

} // verus!
