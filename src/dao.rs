use vstd::prelude::*;

use crate::book::Book;
use crate::error::{outcome, Error};
use crate::payment::{PaymentContract, PaymentState};
use crate::token::{ProfitTokenContract, TokenState};
use crate::Address;

verus! {

/// The abstract state of one proposal.
pub struct ProposalState {
    pub details: Seq<char>,
    /// The signed running sum of vote weights.
    pub votes: int,
    pub executed: bool,
}

/// The abstract state of an investment and proposal ledger.
pub struct DaoState {
    /// The ledger's own identity: the admin of its token ledger.
    pub address: Address,
    pub initialized: bool,
    pub name: Seq<char>,
    pub description: Seq<char>,
    pub funding_goal: u64,
    pub creator: Address,
    /// The identity of the token ledger that backs voting weight.
    pub token: Address,
    pub total_raised: int,
    /// Each identity that ever invested, once, in order of first investment.
    pub investors: Seq<Address>,
    /// What each of them has invested in all.
    pub investments: Map<Address, u64>,
    /// The proposals; a proposal's id is its position.
    pub proposals: Seq<ProposalState>,
    /// The recorded profit distributions, as (timestamp, amount).
    pub history: Seq<(u64, u64)>,
}

impl DaoState {
    /// A ledger at `address` that has not been initialized.
    pub open spec fn empty(address: Address) -> DaoState {
        DaoState {
            address,
            initialized: false,
            name: Seq::empty(),
            description: Seq::empty(),
            funding_goal: 0,
            creator: 0,
            token: 0,
            total_raised: 0,
            investors: Seq::empty(),
            investments: Map::empty(),
            proposals: Seq::empty(),
            history: Seq::empty(),
        }
    }

    /// The cumulative investment of `who`, zero if none.
    pub open spec fn investment(self, who: Address) -> int {
        if self.investments.contains_key(who) {
            self.investments[who] as int
        } else {
            0
        }
    }

    pub open spec fn invest_error(
        self,
        token: TokenState,
        caller: Address,
        investor: Address,
        amount: u64,
    ) -> Option<Error> {
        if caller != investor {
            Some(Error::NotAuthenticated)
        } else if amount == 0 {
            Some(Error::InvalidAmount)
        } else if self.total_raised + amount > u64::MAX {
            Some(Error::Overflow)
        } else if self.investment(investor) + amount > u64::MAX {
            Some(Error::Overflow)
        } else {
            token.mint_error(self.address, amount as i128)
        }
    }

    pub open spec fn invested(self, investor: Address, amount: u64) -> DaoState {
        DaoState {
            total_raised: self.total_raised + amount,
            investments: self.investments.insert(
                investor,
                (self.investment(investor) + amount) as u64,
            ),
            investors: if self.investments.contains_key(investor) {
                self.investors
            } else {
                self.investors.push(investor)
            },
            ..self
        }
    }

    /// The change that a vote of `weight` makes to a tally.
    pub open spec fn vote_delta(weight: int, support: bool) -> int {
        if support {
            weight
        } else {
            -weight
        }
    }

    pub open spec fn vote_error(
        self,
        token: TokenState,
        caller: Address,
        voter: Address,
        id: u64,
        support: bool,
    ) -> Option<Error> {
        if caller != voter {
            Some(Error::NotAuthenticated)
        } else if id >= self.proposals.len() {
            Some(Error::NotFound)
        } else if self.proposals[id as int].executed {
            Some(Error::AlreadyExecuted)
        } else if token.balance(voter) <= 0 {
            Some(Error::InsufficientBalance)
        } else if !(i128::MIN <= self.proposals[id as int].votes + DaoState::vote_delta(
            token.balance(voter),
            support,
        ) <= i128::MAX) {
            Some(Error::Overflow)
        } else {
            None
        }
    }

    pub open spec fn voted(self, id: u64, delta: int) -> DaoState {
        let p = self.proposals[id as int];
        DaoState {
            proposals: self.proposals.update(id as int, ProposalState { votes: p.votes + delta, ..p }),
            ..self
        }
    }

    pub open spec fn execute_error(self, payment: PaymentState, id: u64) -> Option<Error> {
        if id >= self.proposals.len() {
            Some(Error::NotFound)
        } else if self.proposals[id as int].executed {
            Some(Error::AlreadyExecuted)
        } else if self.proposals[id as int].votes <= 0 {
            Some(Error::NotApproved)
        } else {
            payment.transfer_error(self.creator, self.total_raised)
        }
    }

    pub open spec fn marked_executed(self, id: u64) -> DaoState {
        let p = self.proposals[id as int];
        DaoState {
            proposals: self.proposals.update(id as int, ProposalState { executed: true, ..p }),
            ..self
        }
    }
}

/// An executed proposal stays executed: once `execute_proposal` has
/// succeeded on a proposal, executing it again fails with `AlreadyExecuted`
/// whatever the value-transfer ledger holds, and so does any vote on it.
pub proof fn lemma_executes_once(
    d: DaoState,
    payment: PaymentState,
    id: u64,
    later: PaymentState,
    token: TokenState,
    caller: Address,
    support: bool,
)
    requires
        d.execute_error(payment, id) is None,
    ensures
        d.marked_executed(id).proposals[id as int].executed,
        d.marked_executed(id).execute_error(later, id) == Some(Error::AlreadyExecuted),
        d.marked_executed(id).vote_error(token, caller, caller, id, support) == Some(
            Error::AlreadyExecuted,
        ),
{
}

struct Proposal {
    details: String,
    votes: i128,
    executed: bool,
}

impl View for Proposal {
    type V = ProposalState;

    closed spec fn view(&self) -> ProposalState {
        ProposalState { details: self.details@, votes: self.votes as int, executed: self.executed }
    }
}

/// An investment and proposal ledger: it raises funds, mints voting weight
/// on its token ledger, and runs proposals that pay the whole pot to the
/// creator once approved.
pub struct DAOContract {
    address: Address,
    initialized: bool,
    name: String,
    description: String,
    funding_goal: u64,
    creator: Address,
    token: Address,
    total_raised: u64,
    investments: Book<Address, u64>,
    proposals: Vec<Proposal>,
    history: Vec<(u64, u64)>,
}

impl View for DAOContract {
    type V = DaoState;

    closed spec fn view(&self) -> DaoState {
        DaoState {
            address: self.address,
            initialized: self.initialized,
            name: self.name@,
            description: self.description@,
            funding_goal: self.funding_goal,
            creator: self.creator,
            token: self.token,
            total_raised: self.total_raised as int,
            investors: self.investments.keys(),
            investments: self.investments@,
            proposals: self.proposals@.map_values(|p: Proposal| p@),
            history: self.history@,
        }
    }
}

impl DAOContract {
    pub closed spec fn wf(&self) -> bool {
        self.investments.wf()
    }

    /// Each identity appears at most once among the investors, and the
    /// investors are exactly the identities with a recorded investment.
    pub proof fn lemma_investors_distinct(&self)
        requires
            self.wf(),
        ensures
            self@.investors.no_duplicates(),
            forall|a: Address| self@.investments.contains_key(a) <==> self@.investors.contains(a),
    {
        self.investments.lemma_keys();
    }

    /// A ledger at `address`, not yet initialized.
    pub fn new(address: Address) -> (d: Self)
        ensures
            d.wf(),
            d@ == DaoState::empty(address),
    {
        let d = DAOContract {
            address,
            initialized: false,
            name: String::new(),
            description: String::new(),
            funding_goal: 0,
            creator: 0,
            token: 0,
            total_raised: 0,
            investments: Book::new(),
            proposals: Vec::new(),
            history: Vec::new(),
        };
        assert(d@.proposals =~= Seq::<ProposalState>::empty());
        d
    }

    /// One-time setup: records the display strings, the funding goal, the
    /// creator and the token ledger, with nothing raised and no proposals.
    pub fn initialize(
        &mut self,
        name: String,
        description: String,
        funding_goal: u64,
        creator: Address,
        token_contract_id: Address,
    ) -> (r: Result<(), Error>)
        requires
            old(self).wf(),
        ensures
            final(self).wf(),
            r == outcome(
                if old(self)@.initialized {
                    Some(Error::AlreadyInitialized)
                } else {
                    None
                },
            ),
            r is Ok ==> final(self)@ == (DaoState {
                initialized: true,
                name: name@,
                description: description@,
                funding_goal,
                creator,
                token: token_contract_id,
                ..DaoState::empty(old(self)@.address)
            }),
            r is Err ==> final(self)@ == old(self)@,
    {
        if self.initialized {
            return Err(Error::AlreadyInitialized);
        }
        let address = self.address;
        *self = DAOContract::new(address);
        self.initialized = true;
        self.name = name;
        self.description = description;
        self.funding_goal = funding_goal;
        self.creator = creator;
        self.token = token_contract_id;
        Ok(())
    }

    /// Records an investment of `amount` by `investor` and mints as many
    /// voting-weight tokens to them. The caller must be `investor`. Either
    /// everything happens or, on failure, nothing.
    pub fn invest(
        &mut self,
        token: &mut ProfitTokenContract,
        caller: Address,
        investor: Address,
        amount: u64,
    ) -> (r: Result<(), Error>)
        requires
            old(self).wf(),
            old(self)@.initialized,
            old(token).wf(),
            old(token)@.address == old(self)@.token,
        ensures
            final(self).wf(),
            final(token).wf(),
            r == outcome(old(self)@.invest_error(old(token)@, caller, investor, amount)),
            r is Ok ==> final(self)@ == old(self)@.invested(investor, amount) && final(token)@
                == old(token)@.minted(investor, amount as int),
            r is Err ==> final(self)@ == old(self)@ && final(token)@ == old(token)@,
    {
        if caller != investor {
            return Err(Error::NotAuthenticated);
        }
        if amount == 0 {
            return Err(Error::InvalidAmount);
        }
        if self.total_raised > u64::MAX - amount {
            return Err(Error::Overflow);
        }
        let prev = match self.investments.get(investor) {
            Some(v) => v,
            None => 0,
        };
        if prev > u64::MAX - amount {
            return Err(Error::Overflow);
        }
        match token.mint(self.address, investor, amount as i128) {
            Ok(()) => {},
            Err(e) => {
                return Err(e);
            },
        }
        self.total_raised = self.total_raised + amount;
        self.investments.set(investor, prev + amount);
        Ok(())
    }

    /// Adds a proposal with a zero tally and returns its id, the number of
    /// proposals before it. Anyone may create one.
    pub fn create_proposal(&mut self, details: String) -> (r: u64)
        requires
            old(self).wf(),
            old(self)@.initialized,
            old(self)@.proposals.len() < u64::MAX,
        ensures
            final(self).wf(),
            r == old(self)@.proposals.len(),
            final(self)@ == (DaoState {
                proposals: old(self)@.proposals.push(
                    ProposalState { details: details@, votes: 0, executed: false },
                ),
                ..old(self)@
            }),
    {
        let id = self.proposals.len() as u64;
        self.proposals.push(Proposal { details, votes: 0, executed: false });
        assert(self@.proposals =~= old(self)@.proposals.push(
            ProposalState { details: details@, votes: 0, executed: false },
        ));
        id
    }

    /// Adds the voter's current token balance to the proposal's tally, or
    /// takes it away when `support` is false. The caller must be `voter`.
    /// Votes are not tracked per voter: each call applies the balance again.
    /// A voter without tokens fails with `InsufficientBalance`.
    pub fn vote(
        &mut self,
        token: &ProfitTokenContract,
        caller: Address,
        voter: Address,
        proposal_id: u64,
        support: bool,
    ) -> (r: Result<(), Error>)
        requires
            old(self).wf(),
            old(self)@.initialized,
            token.wf(),
            token@.address == old(self)@.token,
        ensures
            final(self).wf(),
            r == outcome(old(self)@.vote_error(token@, caller, voter, proposal_id, support)),
            r is Ok ==> final(self)@ == old(self)@.voted(
                proposal_id,
                DaoState::vote_delta(token@.balance(voter), support),
            ),
            r is Err ==> final(self)@ == old(self)@,
    {
        if caller != voter {
            return Err(Error::NotAuthenticated);
        }
        if proposal_id >= self.proposals.len() as u64 {
            return Err(Error::NotFound);
        }
        let i = proposal_id as usize;
        if self.proposals[i].executed {
            return Err(Error::AlreadyExecuted);
        }
        let w = token.balance(voter);
        if w <= 0 {
            return Err(Error::InsufficientBalance);
        }
        let tally = self.proposals[i].votes;
        let next = if support {
            tally.checked_add(w)
        } else {
            tally.checked_sub(w)
        };
        match next {
            Some(t) => {
                self.proposals[i].votes = t;
                assert(self@.proposals =~= old(self)@.voted(
                    proposal_id,
                    DaoState::vote_delta(token@.balance(voter), support),
                ).proposals);
                Ok(())
            },
            None => Err(Error::Overflow),
        }
    }

    /// Pays the whole amount raised so far to the creator through `payment`
    /// and marks the proposal executed, if its tally is positive and it has
    /// not been executed before.
    pub fn execute_proposal(&mut self, payment: &mut PaymentContract, proposal_id: u64) -> (r: Result<
        (),
        Error,
    >)
        requires
            old(self).wf(),
            old(self)@.initialized,
            old(payment).wf(),
        ensures
            final(self).wf(),
            final(payment).wf(),
            r == outcome(old(self)@.execute_error(old(payment)@, proposal_id)),
            r is Ok ==> final(self)@ == old(self)@.marked_executed(proposal_id) && final(payment)@
                == old(payment)@.paid(old(self)@.creator, old(self)@.total_raised),
            r is Err ==> final(self)@ == old(self)@ && final(payment)@ == old(payment)@,
    {
        if proposal_id >= self.proposals.len() as u64 {
            return Err(Error::NotFound);
        }
        let i = proposal_id as usize;
        if self.proposals[i].executed {
            return Err(Error::AlreadyExecuted);
        }
        if self.proposals[i].votes <= 0 {
            return Err(Error::NotApproved);
        }
        match payment.transfer(self.creator, self.total_raised as i128) {
            Ok(()) => {},
            Err(e) => {
                return Err(e);
            },
        }
        self.proposals[i].executed = true;
        assert(self@.proposals =~= old(self)@.marked_executed(proposal_id).proposals);
        Ok(())
    }

    /// Appends a profit-distribution event to the audit log.
    pub fn record_distribution(&mut self, timestamp: u64, amount: u64)
        requires
            old(self).wf(),
            old(self)@.initialized,
        ensures
            final(self).wf(),
            final(self)@ == (DaoState {
                history: old(self)@.history.push((timestamp, amount)),
                ..old(self)@
            }),
    {
        self.history.push((timestamp, amount));
    }
    pub fn address(&self) -> (r: Address)
        ensures
            r == self@.address,
    {
        self.address
    }

    pub fn get_distribution_history(&self) -> (r: Vec<(u64, u64)>)
        ensures
            r@ == self@.history,
    {
        let mut r: Vec<(u64, u64)> = Vec::new();
        let mut i: usize = 0;
        while i < self.history.len()
            invariant
                i <= self.history@.len(),
                r@ == self.history@.take(i as int),
            decreases self.history@.len() - i,
        {
            r.push(self.history[i]);
            i = i + 1;
            assert(r@ =~= self.history@.take(i as int));
        }
        assert(self.history@.take(i as int) =~= self.history@);
        r
    }

    /// The number of proposals, which is also the id the next one gets.
    pub fn get_proposals_count(&self) -> (r: u64)
        ensures
            r == self@.proposals.len(),
    {
        self.proposals.len() as u64
    }

    pub fn get_proposal_details(&self, proposal_id: u64) -> (r: Result<String, Error>)
        ensures
            proposal_id < self@.proposals.len() ==> r is Ok && r->Ok_0@ == self@.proposals[proposal_id as int].details,
            proposal_id >= self@.proposals.len() ==> r == Err::<String, Error>(Error::NotFound),
    {
        if proposal_id >= self.proposals.len() as u64 {
            return Err(Error::NotFound);
        }
        Ok(self.proposals[proposal_id as usize].details.clone())
    }

    /// The proposal's tally.
    pub fn get_proposal_votes(&self, proposal_id: u64) -> (r: Result<i128, Error>)
        ensures
            r == (if proposal_id < self@.proposals.len() {
                Ok(self@.proposals[proposal_id as int].votes as i128)
            } else {
                Err(Error::NotFound)
            }),
    {
        if proposal_id >= self.proposals.len() as u64 {
            return Err(Error::NotFound);
        }
        Ok(self.proposals[proposal_id as usize].votes)
    }

    pub fn get_proposal_executed(&self, proposal_id: u64) -> (r: Result<bool, Error>)
        ensures
            r == (if proposal_id < self@.proposals.len() {
                Ok(self@.proposals[proposal_id as int].executed)
            } else {
                Err(Error::NotFound)
            }),
    {
        if proposal_id >= self.proposals.len() as u64 {
            return Err(Error::NotFound);
        }
        Ok(self.proposals[proposal_id as usize].executed)
    }

    /// The voter's current balance on the token ledger.
    pub fn get_voting_power(&self, token: &ProfitTokenContract, voter: Address) -> (r: i128)
        requires
            token.wf(),
            token@.address == self@.token,
        ensures
            r == token@.balance(voter),
    {
        token.balance(voter)
    }

    pub fn get_total_raised(&self) -> (r: u64)
        ensures
            r == self@.total_raised,
    {
        self.total_raised
    }

    pub fn is_funding_goal_reached(&self) -> (r: bool)
        ensures
            r == (self@.total_raised >= self@.funding_goal),
    {
        self.total_raised >= self.funding_goal
    }

    /// Each identity that ever invested, once, in order of first investment.
    pub fn get_investors(&self) -> (r: Vec<Address>)
        requires
            self.wf(),
        ensures
            r@ == self@.investors,
    {
        self.investments.key_list()
    }

    pub fn get_token_contract(&self) -> (r: Address)
        ensures
            r == self@.token,
    {
        self.token
    }

    /// Each investor with the amount they invested in all, in order of first
    /// investment.
    pub fn get_investments(&self) -> (r: Vec<(Address, u64)>)
        requires
            self.wf(),
        ensures
            r@ == self@.investors.map_values(|a: Address| (a, self@.investments[a])),
    {
        self.investments.entry_list()
    }

    pub fn get_name(&self) -> (r: String)
        ensures
            r@ == self@.name,
    {
        self.name.clone()
    }

    pub fn get_description(&self) -> (r: String)
        ensures
            r@ == self@.description,
    {
        self.description.clone()
    }

    pub fn get_funding_goal(&self) -> (r: u64)
        ensures
            r == self@.funding_goal,
    {
        self.funding_goal
    }

    pub fn get_creator(&self) -> (r: Address)
        ensures
            r == self@.creator,
    {
        self.creator
    }
}

} // verus!
