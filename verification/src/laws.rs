//! The laws of the ledger, stated over the spec functions that the
//! operations' contracts use, and proved once for all inputs.

use vstd::prelude::*;

use vstd::arithmetic::div_mod::lemma_fundamental_div_mod;
use vstd::arithmetic::div_mod::lemma_mod_bound;

use crate::ledger::Bet;
use crate::ledger::BettingContract;
use crate::ledger::Error;
use crate::ledger::claim_applied;
use crate::ledger::payout_amount;
use crate::ledger::resolution_applied;
use crate::stakes::AccountId;
use crate::stakes::StakeEntry;
use crate::stakes::has_stake;
use crate::stakes::lemma_remove_stake_keeps_others;
use crate::stakes::lemma_remove_stake_no_bettor;
use crate::stakes::lemma_winning_sum_ge_entry;
use crate::stakes::stake_of;
use crate::stakes::sum_amounts;
use crate::stakes::unique_bettors;
use crate::stakes::winning_sum;

verus! {

/// While a wager is unresolved its pool equals the sum of the amounts in
/// its book — every accepted stake added exactly its amount, and nothing
/// else touches the pool — and each staking party appears at most once.
/// Every operation keeps wagers well-formed, so this holds after any
/// sequence of accepted stakes.
pub proof fn lemma_unresolved_pool_is_stake_sum(b: Bet)
    requires
        b.wf(),
        !b.is_resolved,
    ensures
        b.total_pot == sum_amounts(b.stakes@),
        unique_bettors(b.stakes@),
{
}

/// Once a wager is resolved, staking fails with `AlreadyResolved`, and a
/// second resolution always fails — with `AlreadyResolved` when its own
/// arbiter asks — so (with the operations' contracts, which leave the
/// state unchanged on every error) the winning option can never change.
pub proof fn lemma_resolution_is_terminal(
    s: BettingContract,
    bettor: AccountId,
    bet_id: u64,
    option_index: u32,
    caller: AccountId,
    again: u32,
)
    requires
        s.wf(),
        s.has_bet(bet_id),
        s.bet_at(bet_id).is_resolved,
    ensures
        s.place_error(bettor, bet_id, option_index) == Some(Error::AlreadyResolved),
        s.resolve_error(caller, bet_id, again) is Some,
        caller == s.bet_at(bet_id).oracle ==> s.resolve_error(caller, bet_id, again) == Some(
            Error::AlreadyResolved,
        ),
{
}

/// A resolution that succeeds makes the wager resolved, so from then on
/// `lemma_resolution_is_terminal` applies to it.
pub proof fn lemma_resolved_after_resolution(b0: Bet, b1: Bet, winning_option_index: u32)
    requires
        resolution_applied(b0, b1, winning_option_index),
    ensures
        b1.is_resolved,
        b1.winning_option == Some(winning_option_index),
{
}

/// Before resolution a claim always fails with `NotResolved`; by
/// `claim_winnings`'s contract the state is then unchanged and no payout
/// is owed.
pub proof fn lemma_claim_before_resolve(s: BettingContract, claimer: AccountId, bet_id: u64)
    requires
        s.wf(),
        s.has_bet(bet_id),
        !s.bet_at(bet_id).is_resolved,
    ensures
        s.claim_error(claimer, bet_id) == Some(Error::NotResolved),
{
}

/// After a successful claim the claimer's entry is gone, so a second claim
/// by the same party on the same wager fails with `NoStake`.
pub proof fn lemma_no_second_claim(
    pre: BettingContract,
    post: BettingContract,
    claimer: AccountId,
    bet_id: u64,
)
    requires
        pre.wf(),
        pre.claim_error(claimer, bet_id) is None,
        post.bets@.len() == pre.bets@.len(),
        claim_applied(pre.bet_at(bet_id), post.bet_at(bet_id), claimer),
    ensures
        post.claim_error(claimer, bet_id) == Some(Error::NoStake),
{
    lemma_remove_stake_no_bettor(pre.bet_at(bet_id).stakes@, claimer);
}

/// The sum of a sequence of amounts.
pub open spec fn sum_seq(s: Seq<int>) -> int
    decreases s.len(),
{
    if s.len() == 0 {
        0
    } else {
        sum_seq(s.drop_last()) + s.last()
    }
}

/// The sum of the floored proportional shares `x * pool / s` over a
/// sequence of stakes `x`.
pub open spec fn sum_shares(stakes: Seq<int>, pool: int, s: int) -> int
    decreases stakes.len(),
{
    if stakes.len() == 0 {
        0
    } else {
        sum_shares(stakes.drop_last(), pool, s) + stakes.last() * pool / s
    }
}

/// A sequence of positive amounts has a positive sum once it is non-empty.
proof fn lemma_sum_seq_pos(s: Seq<int>)
    requires
        s.len() >= 1,
        forall|i: int| 0 <= i < s.len() ==> s[i] > 0,
    ensures
        sum_seq(s) > 0,
    decreases s.len(),
{
    reveal_with_fuel(sum_seq, 2);
    assert(s.last() == s[s.len() - 1]);
    if s.len() > 1 {
        assert(forall|i: int| 0 <= i < s.drop_last().len() ==> s.drop_last()[i] == s[i]);
        lemma_sum_seq_pos(s.drop_last());
    }
}

/// Scaled bounds on the share sum: `s` times it never exceeds the stake
/// sum times the pool, and falls short of that product by less than `s`
/// per stake.
proof fn lemma_sum_shares_scaled(stakes: Seq<int>, pool: int, s: int)
    requires
        s > 0,
        stakes.len() >= 1,
    ensures
        s * sum_shares(stakes, pool, s) <= sum_seq(stakes) * pool,
        s * sum_shares(stakes, pool, s) > sum_seq(stakes) * pool - stakes.len() * s,
    decreases stakes.len(),
{
    {
        let rest = stakes.drop_last();
        let x = stakes.last();
        if stakes.len() > 1 {
            lemma_sum_shares_scaled(rest, pool, s);
        }
        lemma_fundamental_div_mod(x * pool, s);
        lemma_mod_bound(x * pool, s);
        assert(s * (x * pool / s) == x * pool - (x * pool) % s) by (nonlinear_arith)
            requires
                s != 0,
                x * pool == s * ((x * pool) / s) + ((x * pool) % s),
        ;
        assert(s * sum_shares(stakes, pool, s) == s * sum_shares(rest, pool, s) + s * (x * pool
            / s)) by (nonlinear_arith)
            requires
                sum_shares(stakes, pool, s) == sum_shares(rest, pool, s) + x * pool / s,
        ;
        assert(sum_seq(stakes) * pool == sum_seq(rest) * pool + x * pool) by (nonlinear_arith)
            requires
                sum_seq(stakes) == sum_seq(rest) + x,
        ;
        assert((stakes.len() as int) * s == (rest.len() as int) * s + s) by (nonlinear_arith)
            requires
                stakes.len() == rest.len() + 1,
        ;
    }
}

/// Payout conservation: for a pool `pool` and winner stakes summing to
/// `s > 0`, the floored proportional shares sum to at most `pool`, and the
/// stranded remainder is less than one unit per winner.
pub proof fn lemma_payout_conservation(stakes: Seq<int>, pool: int, s: int)
    requires
        stakes.len() >= 1,
        forall|i: int| 0 <= i < stakes.len() ==> stakes[i] > 0,
        s == sum_seq(stakes),
    ensures
        sum_shares(stakes, pool, s) <= pool,
        pool - sum_shares(stakes, pool, s) < stakes.len(),
{
    lemma_sum_seq_pos(stakes);
    lemma_sum_shares_scaled(stakes, pool, s);
    let total = sum_shares(stakes, pool, s);
    let n = stakes.len() as int;
    assert(total <= pool && pool - total < n) by (nonlinear_arith)
        requires
            s > 0,
            n >= 1,
            s * total <= s * pool,
            s * total > s * pool - n * s,
    ;
}

/// The amounts of the entries staked on option `w`, in book order.
pub open spec fn winner_amounts(s: Seq<StakeEntry>, w: u32) -> Seq<int>
    decreases s.len(),
{
    if s.len() == 0 {
        Seq::empty()
    } else if s.last().option_index == w {
        winner_amounts(s.drop_last(), w).push(s.last().amount as int)
    } else {
        winner_amounts(s.drop_last(), w)
    }
}

/// The winner amounts sum to the winning sum.
proof fn lemma_winner_amounts_sum(s: Seq<StakeEntry>, w: u32)
    ensures
        sum_seq(winner_amounts(s, w)) == winning_sum(s, w),
    decreases s.len(),
{
    if s.len() > 0 {
        lemma_winner_amounts_sum(s.drop_last(), w);
        if s.last().option_index == w {
            let wa = winner_amounts(s.drop_last(), w);
            assert(wa.push(s.last().amount as int).drop_last() =~= wa);
        }
    }
}

/// Winner amounts taken from a book of positive amounts are positive.
proof fn lemma_winner_amounts_pos(s: Seq<StakeEntry>, w: u32)
    requires
        forall|i: int| 0 <= i < s.len() ==> (#[trigger] s[i]).amount > 0,
    ensures
        forall|i: int| 0 <= i < winner_amounts(s, w).len() ==> winner_amounts(s, w)[i] > 0,
    decreases s.len(),
{
    if s.len() > 0 {
        assert(forall|i: int| 0 <= i < s.drop_last().len() ==> s.drop_last()[i] == s[i]);
        lemma_winner_amounts_pos(s.drop_last(), w);
        assert(s.last() == s[s.len() - 1]);
        let wa = winner_amounts(s, w);
        let wd = winner_amounts(s.drop_last(), w);
        assert forall|i: int| 0 <= i < wa.len() implies wa[i] > 0 by {
            if s.last().option_index == w {
                if i < wd.len() {
                    assert(wa[i] == wd[i]);
                } else {
                    assert(wa[i] == s.last().amount as int);
                }
            } else {
                assert(wa[i] == wd[i]);
            }
        }
    }
}

/// Payout conservation at a wager, taken right after resolution — when the
/// book still holds every accepted stake and the frozen winning sum equals
/// what stands on the winning option. Each winner's `payout_amount` is
/// exactly its own term, stake times pool over the frozen sum, and by
/// `lemma_claim_leaves_other_payouts` no claim moves anyone else's term,
/// so the shares summed here are exactly what the whole sequence of claims
/// ever pays: at most the pool, short of it by less than one unit per
/// winner.
pub proof fn lemma_wager_payout_conservation(b: Bet)
    requires
        b.wf(),
        b.is_resolved,
        b.winning_total == winning_sum(b.stakes@, b.winning_option->0),
        winner_amounts(b.stakes@, b.winning_option->0).len() >= 1,
    ensures
        ({
            let w = b.winning_option->0;
            let shares = sum_shares(
                winner_amounts(b.stakes@, w),
                b.total_pot as int,
                b.winning_total as int,
            );
            shares <= b.total_pot && b.total_pot - shares < winner_amounts(b.stakes@, w).len()
        }),
{
    let w = b.winning_option->0;
    lemma_winner_amounts_sum(b.stakes@, w);
    lemma_winner_amounts_pos(b.stakes@, w);
    lemma_payout_conservation(
        winner_amounts(b.stakes@, w),
        b.total_pot as int,
        b.winning_total as int,
    );
}

/// No other party's claim moves a winner's share: a claim by `other`
/// leaves `who`'s entry, the pool and the frozen winning sum all
/// unchanged, so `who` is owed exactly the same payout before and after.
pub proof fn lemma_claim_leaves_other_payouts(b0: Bet, b1: Bet, other: AccountId, who: AccountId)
    requires
        b0.wf(),
        claim_applied(b0, b1, other),
        who != other,
        has_stake(b0.stakes@, who),
    ensures
        has_stake(b1.stakes@, who),
        payout_amount(b1, who) == payout_amount(b0, who),
{
    lemma_remove_stake_keeps_others(b0.stakes@, other, who);
}

/// One claim alone never draws more than the whole pool: a winner's share
/// is bounded by the pool, and a loser's is zero.
pub proof fn lemma_single_payout_bounds(b: Bet, claimer: AccountId)
    requires
        b.wf(),
        b.is_resolved,
        has_stake(b.stakes@, claimer),
    ensures
        0 <= payout_amount(b, claimer),
        payout_amount(b, claimer) <= b.total_pot,
{
    let e = stake_of(b.stakes@, claimer);
    let w = b.winning_option->0;
    let k = choose|k: int| 0 <= k < b.stakes@.len() && b.stakes@[k].bettor == claimer;
    if e.option_index == w && b.winning_total > 0 {
        lemma_winning_sum_ge_entry(b.stakes@, w, k);
        assert(0 <= e.amount * b.total_pot / (b.winning_total as int) <= b.total_pot)
            by (nonlinear_arith)
            requires
                0 < e.amount <= b.winning_total as int,
                0 <= b.total_pot,
        ;
    }
}

} // verus!
