use vstd::prelude::*;

use crate::dao::DAOContract;
use crate::error::{outcome, Error};
use crate::payment::{PaymentContract, PaymentState};
use crate::token::{lemma_balance_le_supply, ProfitTokenContract, TokenState};
use crate::book::{lemma_sum_bounds, lemma_sum_insert, sum_over, value_at};
use crate::Address;

verus! {

/// The share of `profit` owed to a holder of `shares` out of `total`,
/// rounded down.
pub open spec fn payout(profit: int, shares: int, total: int) -> int {
    profit * shares / total
}

/// What each investor is owed, in investor order.
pub open spec fn payouts(investors: Seq<Address>, token: TokenState, profit: u64) -> Seq<int> {
    investors.map_values(|a: Address| payout(profit as int, token.balance(a), token.total_supply))
}

/// Whether each product of the profit and an investor's balance fits in
/// 128 bits.
pub open spec fn products_fit(investors: Seq<Address>, token: TokenState, profit: u64) -> bool {
    forall|i: int| 0 <= i < investors.len() ==> #[trigger] (profit * token.balance(investors[i])) <= u128::MAX
}

/// Paying `amounts[i]` to `to[i]` in turn, stopping at the first payment
/// that fails: the ledger's state afterwards, and the failure if any.
pub open spec fn pay_all(p: PaymentState, to: Seq<Address>, amounts: Seq<int>) -> (PaymentState, Option<Error>)
    decreases to.len(),
{
    if to.len() == 0 {
        (p, None)
    } else {
        match p.transfer_error(to[0], amounts[0]) {
            Some(e) => (p, Some(e)),
            None => pay_all(p.paid(to[0], amounts[0]), to.drop_first(), amounts.drop_first()),
        }
    }
}

/// Rounding a share down never gives more than the whole profit.
proof fn lemma_payout_bounded(profit: int, shares: int, total: int)
    requires
        0 <= profit,
        0 <= shares <= total,
        0 < total,
    ensures
        0 <= payout(profit, shares, total) <= profit,
{
    assert(profit * shares <= profit * total) by (nonlinear_arith)
        requires
            0 <= profit,
            shares <= total,
    ;
    assert(0 <= profit * shares) by (nonlinear_arith)
        requires
            0 <= profit,
            0 <= shares,
    ;
    assert(profit * shares / total <= profit * total / total) by (nonlinear_arith)
        requires
            profit * shares <= profit * total,
            0 < total,
    ;
    assert(profit * total / total == profit) by (nonlinear_arith)
        requires
            0 < total,
    ;
    assert(0 <= profit * shares / total) by (nonlinear_arith)
        requires
            0 <= profit * shares,
            0 < total,
    ;
}

/// The sum of a sequence of integers.
pub open spec fn total_of(s: Seq<int>) -> int
    decreases s.len(),
{
    if s.len() == 0 {
        0
    } else {
        total_of(s.drop_last()) + s.last()
    }
}

/// Over non-negative values, the sum over distinct keys is at most the sum
/// over a distinct record of every key with a non-zero value.
proof fn lemma_sub_sum(sub: Seq<Address>, holders: Seq<Address>, m: Map<Address, i128>)
    requires
        sub.no_duplicates(),
        holders.no_duplicates(),
        forall|x: Address| #[trigger] value_at(m, x) >= 0,
        forall|x: Address| value_at(m, x) != 0 ==> holders.contains(x),
    ensures
        sum_over(sub, m) <= sum_over(holders, m),
    decreases sub.len(),
{
    lemma_sum_bounds(holders, m, 0);
    if sub.len() > 0 {
        let x = sub.last();
        let rest = sub.drop_last();
        let m2 = m.insert(x, 0i128);
        assert(rest.no_duplicates());
        assert(!rest.contains(x)) by {
            if rest.contains(x) {
                let i = choose|i: int| 0 <= i < rest.len() && rest[i] == x;
                assert(sub[i] == sub[sub.len() - 1]);
            }
        }
        lemma_sum_insert(rest, m, x, 0i128);
        lemma_sum_insert(holders, m, x, 0i128);
        assert forall|y: Address| #[trigger] value_at(m2, y) >= 0 by {
            if y != x {
                assert(value_at(m, y) >= 0);
            }
        }
        assert forall|y: Address| value_at(m2, y) != 0 implies holders.contains(y) by {
            assert(value_at(m2, y) == value_at(m, y));
        }
        lemma_sub_sum(rest, holders, m2);
        assert(value_at(m, x) >= 0);
    }
}

/// Each share, rounded down and scaled back up, is at most the unrounded
/// product; so is their sum.
proof fn lemma_scaled_payouts(investors: Seq<Address>, token: TokenState, profit: u64)
    requires
        token.total_supply > 0,
        forall|x: Address| #[trigger] token.balance(x) >= 0,
    ensures
        total_of(payouts(investors, token, profit)) * token.total_supply <= profit * sum_over(
            investors,
            token.balances,
        ),
        total_of(payouts(investors, token, profit)) >= 0,
    decreases investors.len(),
{
    if investors.len() > 0 {
        let rest = investors.drop_last();
        let x = investors.last();
        assert(payouts(investors, token, profit).drop_last() =~= payouts(rest, token, profit));
        lemma_scaled_payouts(rest, token, profit);
        let t = token.total_supply;
        let b = token.balance(x);
        let f = payout(profit as int, b, t);
        let before = total_of(payouts(rest, token, profit));
        let sum_rest = sum_over(rest, token.balances);
        assert(b >= 0);
        assert(f * t <= profit * b && f >= 0) by (nonlinear_arith)
            requires
                f == profit * b / t,
                t > 0,
                b >= 0,
                profit >= 0,
        ;
        assert((before + f) * t <= profit * (sum_rest + b)) by (nonlinear_arith)
            requires
                before * t <= profit * sum_rest,
                f * t <= profit * b,
        ;
    }
}

/// Rounding down is never made up: what a distribution owes all the
/// investors of a ledger together never exceeds the profit, and no single
/// share is negative. The remainder stays with the paying ledger.
pub proof fn lemma_payouts_within_profit(investors: Seq<Address>, token: TokenState, profit: u64)
    requires
        token.valid(),
        token.total_supply > 0,
        investors.no_duplicates(),
    ensures
        total_of(payouts(investors, token, profit)) <= profit,
        forall|i: int| 0 <= i < investors.len() ==> #[trigger] payouts(investors, token, profit)[i] >= 0,
{
    assert forall|x: Address| value_at(token.balances, x) != 0 implies token.holders.contains(x) by {}
    assert forall|x: Address| #[trigger] value_at(token.balances, x) >= 0 by {
        assert(token.balance(x) >= 0);
    }
    lemma_sub_sum(investors, token.holders, token.balances);
    lemma_scaled_payouts(investors, token, profit);
    let t = token.total_supply;
    let total = total_of(payouts(investors, token, profit));
    let held = sum_over(investors, token.balances);
    assert(total <= profit) by (nonlinear_arith)
        requires
            total * t <= profit * held,
            held <= t,
            t > 0,
            profit >= 0,
    ;
    assert forall|i: int| 0 <= i < investors.len() implies #[trigger] payouts(investors, token, profit)[i]
        >= 0 by {
        lemma_balance_le_supply(token, investors[i]);
        lemma_payout_bounded(profit as int, token.balance(investors[i]), t);
    }
}

/// Splits external profits across a ledger's investors in proportion to
/// their token balances.
pub struct ProfitDistributionContract;

impl ProfitDistributionContract {
    /// The share of `profit` owed to a holder of `shares` out of
    /// `total_shares`, rounded down; `None` where the product of `profit` and
    /// `shares` does not fit in 128 bits.
    pub fn share_of(profit: u64, shares: i128, total_shares: i128) -> (r: Option<u64>)
        requires
            0 <= shares <= total_shares,
            0 < total_shares,
        ensures
            r == (if profit * shares <= u128::MAX {
                Some(payout(profit as int, shares as int, total_shares as int) as u64)
            } else {
                None::<u64>
            }),
    {
        match (profit as u128).checked_mul(shares as u128) {
            Some(product) => {
                proof {
                    lemma_payout_bounded(profit as int, shares as int, total_shares as int);
                }
                Some((product / (total_shares as u128)) as u64)
            },
            None => None,
        }
    }

    /// Pays each investor of `dao`, in order of first investment, the share
    /// of `profit_amount` that their token balance is of the total supply,
    /// rounded down, out of `payment`'s own balance. What rounding leaves
    /// over stays with `payment`. The shares are all computed before the
    /// first payment; a payment that fails ends the run and leaves the
    /// earlier ones made.
    pub fn distribute(
        dao: &DAOContract,
        token: &ProfitTokenContract,
        payment: &mut PaymentContract,
        profit_amount: u64,
    ) -> (r: Result<(), Error>)
        requires
            dao.wf(),
            token.wf(),
            old(payment).wf(),
            token@.address == dao@.token,
        ensures
            final(payment).wf(),
            token@.total_supply == 0 ==> r == Err::<(), Error>(Error::DivisionByZero),
            token@.total_supply == 0 ==> final(payment)@ == old(payment)@,
            token@.total_supply != 0 && !products_fit(dao@.investors, token@, profit_amount) ==> r
                == Err::<(), Error>(Error::Overflow) && final(payment)@ == old(payment)@,
            token@.total_supply != 0 && products_fit(dao@.investors, token@, profit_amount) ==> final(payment)@
                == pay_all(old(payment)@, dao@.investors, payouts(dao@.investors, token@, profit_amount)).0,
            token@.total_supply != 0 && products_fit(dao@.investors, token@, profit_amount) ==> r
                == outcome(pay_all(old(payment)@, dao@.investors, payouts(dao@.investors, token@, profit_amount)).1),
    {
        let investors = dao.get_investors();
        let total_shares = token.total_supply();
        if total_shares == 0 {
            return Err(Error::DivisionByZero);
        }
        let ghost amounts = payouts(dao@.investors, token@, profit_amount);
        proof {
            token.lemma_wf_valid();
        }
        let mut shares: Vec<u64> = Vec::new();
        let mut i: usize = 0;
        while i < investors.len()
            invariant
                investors@ == dao@.investors,
                token.wf(),
                token@.valid(),
                payment.wf(),
                payment@ == old(payment)@,
                total_shares == token@.total_supply,
                total_shares > 0,
                amounts == payouts(dao@.investors, token@, profit_amount),
                i <= investors@.len(),
                shares@.len() == i,
                forall|j: int| 0 <= j < i ==> shares@[j] == amounts[j],
                forall|j: int|
                    0 <= j < i ==> #[trigger] (profit_amount * token@.balance(investors@[j]))
                        <= u128::MAX,
            decreases investors@.len() - i,
        {
            let b = token.balance(investors[i]);
            proof {
                lemma_balance_le_supply(token@, investors@[i as int]);
                lemma_payout_bounded(profit_amount as int, b as int, total_shares as int);
                assert(amounts[i as int] == payout(profit_amount as int, b as int, total_shares as int));
            }
            match ProfitDistributionContract::share_of(profit_amount, b, total_shares) {
                Some(s) => {
                    shares.push(s);
                },
                None => {
                    assert(!products_fit(dao@.investors, token@, profit_amount)) by {
                        assert(!(profit_amount * token@.balance(investors@[i as int]) <= u128::MAX));
                    }
                    return Err(Error::Overflow);
                },
            }
            i = i + 1;
        }
        assert(products_fit(dao@.investors, token@, profit_amount)) by {
            assert forall|j: int| 0 <= j < investors@.len() implies #[trigger] (profit_amount
                * token@.balance(investors@[j])) <= u128::MAX by {}
        }
        assert(investors@.skip(0) =~= investors@);
        assert(amounts.skip(0) =~= amounts);
        let mut k: usize = 0;
        while k < investors.len()
            invariant
                token@.total_supply > 0,
                products_fit(dao@.investors, token@, profit_amount),
                amounts == payouts(dao@.investors, token@, profit_amount),
                investors@ == dao@.investors,
                shares@.len() == investors@.len(),
                forall|j: int| 0 <= j < shares@.len() ==> shares@[j] == amounts[j],
                amounts.len() == investors@.len(),
                payment.wf(),
                k <= investors@.len(),
                pay_all(old(payment)@, investors@, amounts) == pay_all(
                    payment@,
                    investors@.skip(k as int),
                    amounts.skip(k as int),
                ),
            decreases investors@.len() - k,
        {
            let ghost before = payment@;
            let ghost rest = investors@.skip(k as int);
            let ghost rest_amounts = amounts.skip(k as int);
            assert(rest[0] == investors@[k as int]);
            assert(rest_amounts[0] == amounts[k as int]);
            assert(rest.drop_first() =~= investors@.skip(k + 1));
            assert(rest_amounts.drop_first() =~= amounts.skip(k + 1));
            match payment.transfer(investors[k], shares[k] as i128) {
                Ok(()) => {},
                Err(e) => {
                    return Err(e);
                },
            }
            k = k + 1;
        }
        assert(investors@.skip(k as int) =~= Seq::<Address>::empty());
        Ok(())
    }
}

} // verus!
