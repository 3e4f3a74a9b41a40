//! The wager registry and its operations: creation, staking, resolution and
//! proportional payout.
//!
//! The host around the library authenticates each caller before the call,
//! carries out the returned custody movement, and persists the new state
//! only when that movement has succeeded; on any error the state is
//! returned unchanged and nothing may be persisted or transferred.

use vstd::prelude::*;

use crate::stakes::AccountId;
use crate::stakes::StakeEntry;
use crate::stakes::contains_bettor;
use crate::stakes::find_stake_index;
use crate::stakes::has_stake;
use crate::stakes::lemma_remove_stake_membership;
use crate::stakes::lemma_remove_stake_no_bettor;
use crate::stakes::lemma_remove_stake_sum_le;
use crate::stakes::lemma_remove_stake_unique;
use crate::stakes::lemma_remove_stake_winning_sum_le;
use crate::stakes::lemma_sum_amounts_push;
use crate::stakes::lemma_winning_sum_le_sum;
use crate::stakes::remove_stake;
use crate::stakes::removed_stakes;
use crate::stakes::stake_of;
use crate::stakes::sum_amounts;
use crate::stakes::unique_bettors;
use crate::stakes::winning_sum;
use crate::stakes::winning_total;

verus! {

/// Everything an operation can be refused for. The host reports
/// `Unauthorized` when the caller cannot prove control of the identity it
/// names, and `TransferFailed` when the custody movement is refused; the
/// operations here surface the rest.
#[derive(Clone, Copy, PartialEq, Eq, Structural, Debug)]
pub enum Error {
    Unauthorized,
    NotFound,
    AlreadyResolved,
    InvalidOption,
    Forbidden,
    DuplicateStake,
    NotResolved,
    NoStake,
    TransferFailed,
}

/// A movement of staked value into custody, owed before the stake may be
/// persisted: `amount` of the `token` asset from `from` to the custody
/// account.
#[derive(Clone, Copy, PartialEq, Eq, Structural, Debug)]
pub struct Deposit {
    pub token: AccountId,
    pub from: AccountId,
    pub amount: i128,
}

/// A movement of won value out of custody: `amount` of the `token` asset
/// from the custody account to `to`. An `amount` of zero means nothing is
/// owed.
#[derive(Clone, Copy, PartialEq, Eq, Structural, Debug)]
pub struct Payout {
    pub token: AccountId,
    pub to: AccountId,
    pub amount: i128,
}

/// One wager: immutable metadata, the one-way resolution, the cumulative
/// pool, the sum staked on the winning option — frozen over the complete
/// book when the wager is resolved — and the current stake book.
#[derive(Clone, Debug)]
pub struct Bet {
    pub id: u64,
    pub question: String,
    pub options: Vec<String>,
    pub oracle: AccountId,
    pub is_resolved: bool,
    pub winning_option: Option<u32>,
    pub total_pot: i128,
    pub winning_total: i128,
    pub stakes: Vec<StakeEntry>,
}

impl Bet {
    /// Well-formedness: at least one option; one stake per party, each
    /// positive and on a real option; the pool holds the all-time stake sum,
    /// which the book matches exactly until resolution and never exceeds
    /// afterwards; the winning option exists exactly once resolved; the
    /// frozen winning-stake sum is zero before resolution and afterwards
    /// bounded by the pool and never exceeded by what still stands on the
    /// winning option (claims only remove entries).
    pub open spec fn wf(self) -> bool {
        &&& self.options@.len() >= 1
        &&& unique_bettors(self.stakes@)
        &&& forall|i: int| 0 <= i < self.stakes@.len() ==> (#[trigger] self.stakes@[i]).amount > 0
        &&& forall|i: int|
            0 <= i < self.stakes@.len() ==> (#[trigger] self.stakes@[i]).option_index
                < self.options@.len()
        &&& 0 <= self.total_pot
        &&& sum_amounts(self.stakes@) <= self.total_pot
        &&& !self.is_resolved ==> self.total_pot == sum_amounts(self.stakes@)
        &&& self.is_resolved <==> self.winning_option is Some
        &&& self.winning_option matches Some(w) ==> w < self.options@.len()
        &&& 0 <= self.winning_total <= self.total_pot
        &&& !self.is_resolved ==> self.winning_total == 0
        &&& self.is_resolved ==> winning_sum(self.stakes@, self.winning_option->0)
            <= self.winning_total
    }
}

/// The winner's proportional share: the claimer's stake times the all-time
/// pool, divided (rounding down) by the winning-stake sum frozen at
/// resolution; zero for a losing stake. The share depends only on values
/// the claim operation never changes, so it is the same whenever the
/// claimer asks, whatever other parties have claimed in between.
pub open spec fn payout_amount(b: Bet, claimer: AccountId) -> int
    recommends
        b.wf(),
        b.is_resolved,
        has_stake(b.stakes@, claimer),
{
    let e = stake_of(b.stakes@, claimer);
    let w = b.winning_option->0;
    if e.option_index == w && b.winning_total > 0 {
        e.amount * b.total_pot / (b.winning_total as int)
    } else {
        0
    }
}

/// How a successful stake changes a wager: the entry is appended, the pool
/// grows by the amount, and everything else stands.
pub open spec fn stake_added(b0: Bet, b1: Bet, bettor: AccountId, option_index: u32, amount: i128) -> bool {
    &&& b1.id == b0.id
    &&& b1.question == b0.question
    &&& b1.options == b0.options
    &&& b1.oracle == b0.oracle
    &&& b1.is_resolved == b0.is_resolved
    &&& b1.winning_option == b0.winning_option
    &&& b1.total_pot == b0.total_pot + amount
    &&& b1.winning_total == b0.winning_total
    &&& b1.stakes@ == b0.stakes@.push(StakeEntry { bettor, option_index, amount })
}

/// How a successful resolution changes a wager: it becomes resolved with
/// the given winning option, the winning-stake sum is frozen over the
/// complete book — every accepted stake is still present, since claims are
/// impossible before resolution — and everything else stands.
pub open spec fn resolution_applied(b0: Bet, b1: Bet, winning_option_index: u32) -> bool {
    &&& b1.id == b0.id
    &&& b1.question == b0.question
    &&& b1.options == b0.options
    &&& b1.oracle == b0.oracle
    &&& b1.is_resolved
    &&& b1.winning_option == Some(winning_option_index)
    &&& b1.total_pot == b0.total_pot
    &&& b1.winning_total == winning_sum(b0.stakes@, winning_option_index)
    &&& b1.stakes@ == b0.stakes@
}

/// How a successful claim changes a wager: the claimer's entry leaves the
/// book — win or lose — and everything else stands; the pool and the
/// frozen winning-stake sum in particular are never decremented, so the
/// shares owed to the other parties do not move.
pub open spec fn claim_applied(b0: Bet, b1: Bet, claimer: AccountId) -> bool {
    &&& b1.id == b0.id
    &&& b1.question == b0.question
    &&& b1.options == b0.options
    &&& b1.oracle == b0.oracle
    &&& b1.is_resolved == b0.is_resolved
    &&& b1.winning_option == b0.winning_option
    &&& b1.total_pot == b0.total_pot
    &&& b1.winning_total == b0.winning_total
    &&& b1.stakes@ == remove_stake(b0.stakes@, claimer)
}

/// The whole ledger: the identifier allocator and the registry, with
/// identifiers assigned densely from 1.
#[derive(Clone, Debug)]
pub struct BettingContract {
    pub next_bet_id: u64,
    pub bets: Vec<Bet>,
}

impl BettingContract {
    /// Well-formedness: the allocator is one past the last assigned
    /// identifier, wager `i + 1` sits at position `i`, and every wager is
    /// well-formed.
    pub open spec fn wf(self) -> bool {
        &&& self.next_bet_id == self.bets@.len() + 1
        &&& forall|i: int| 0 <= i < self.bets@.len() ==> (#[trigger] self.bets@[i]).id == i + 1
        &&& forall|i: int| 0 <= i < self.bets@.len() ==> (#[trigger] self.bets@[i]).wf()
    }

    /// Whether a wager with this identifier exists.
    pub open spec fn has_bet(self, bet_id: u64) -> bool {
        1 <= bet_id <= self.bets@.len()
    }

    /// The wager with this identifier.
    pub open spec fn bet_at(self, bet_id: u64) -> Bet
        recommends
            self.has_bet(bet_id),
    {
        self.bets@[bet_id - 1]
    }

    /// Why a stake would be refused, first failure winning; `None` when it
    /// is accepted.
    pub open spec fn place_error(self, bettor: AccountId, bet_id: u64, option_index: u32) -> Option<
        Error,
    > {
        if !self.has_bet(bet_id) {
            Some(Error::NotFound)
        } else if self.bet_at(bet_id).is_resolved {
            Some(Error::AlreadyResolved)
        } else if !(option_index < self.bet_at(bet_id).options@.len()) {
            Some(Error::InvalidOption)
        } else if has_stake(self.bet_at(bet_id).stakes@, bettor) {
            Some(Error::DuplicateStake)
        } else {
            None
        }
    }

    /// Why a resolution would be refused; `None` when it is accepted.
    pub open spec fn resolve_error(self, oracle: AccountId, bet_id: u64, winning_option_index: u32) -> Option<
        Error,
    > {
        if !self.has_bet(bet_id) {
            Some(Error::NotFound)
        } else if oracle != self.bet_at(bet_id).oracle {
            Some(Error::Forbidden)
        } else if self.bet_at(bet_id).is_resolved {
            Some(Error::AlreadyResolved)
        } else if !(winning_option_index < self.bet_at(bet_id).options@.len()) {
            Some(Error::InvalidOption)
        } else {
            None
        }
    }

    /// Why a claim would be refused; `None` when it is accepted.
    pub open spec fn claim_error(self, claimer: AccountId, bet_id: u64) -> Option<Error> {
        if !self.has_bet(bet_id) {
            Some(Error::NotFound)
        } else if !self.bet_at(bet_id).is_resolved {
            Some(Error::NotResolved)
        } else if !has_stake(self.bet_at(bet_id).stakes@, claimer) {
            Some(Error::NoStake)
        } else {
            None
        }
    }

    /// Room for one more stake: the wager's pool, if the wager exists, can
    /// take `amount` without leaving `i128`.
    pub open spec fn stake_fits(self, bet_id: u64, amount: i128) -> bool {
        self.has_bet(bet_id) ==> self.bet_at(bet_id).total_pot + amount <= i128::MAX
    }

    /// The winner's share can be computed without leaving `i128`: the
    /// claimer's stake times the pool stays in range. The host can always
    /// check this from `get_bet` before calling `claim_winnings`.
    pub open spec fn claim_fits(self, claimer: AccountId, bet_id: u64) -> bool {
        self.claim_error(claimer, bet_id) is None ==> {
            let b = self.bet_at(bet_id);
            let e = stake_of(b.stakes@, claimer);
            e.option_index == b.winning_option->0 ==> e.amount * b.total_pot <= i128::MAX
        }
    }

    /// A fresh ledger, as system bootstrap leaves it: no wagers, the next
    /// identifier 1. Writing a fresh ledger over a live one orphans the
    /// records the old one held, so the host must bootstrap only once.
    pub fn initialize() -> (c: BettingContract)
        ensures
            c.wf(),
            c.next_bet_id == 1,
            c.bets@.len() == 0,
    {
        BettingContract { next_bet_id: 1, bets: Vec::new() }
    }

    /// Creates a wager: the caller — whose identity the host has proved —
    /// becomes its arbiter; it starts unresolved with an empty book and an
    /// empty pool, under the next identifier.
    pub fn create_bet(&mut self, oracle: AccountId, question: String, options: Vec<String>) -> (r:
        u64)
        requires
            old(self).wf(),
            old(self).next_bet_id < u64::MAX,
            options@.len() >= 1,
        ensures
            final(self).wf(),
            r == old(self).next_bet_id,
            final(self).next_bet_id == old(self).next_bet_id + 1,
            final(self).bets@.len() == old(self).bets@.len() + 1,
            forall|j: int|
                0 <= j < old(self).bets@.len() ==> final(self).bets@[j] == old(self).bets@[j],
            ({
                let b = final(self).bets@.last();
                &&& b.id == r
                &&& b.question == question
                &&& b.options == options
                &&& b.oracle == oracle
                &&& !b.is_resolved
                &&& b.winning_option is None
                &&& b.total_pot == 0
                &&& b.winning_total == 0
                &&& b.stakes@.len() == 0
            }),
    {
        let bet_id: u64 = self.next_bet_id;
        let bet = Bet {
            id: bet_id,
            question,
            options,
            oracle,
            is_resolved: false,
            winning_option: None,
            total_pot: 0,
            winning_total: 0,
            stakes: Vec::new(),
        };
        self.bets.push(bet);
        self.next_bet_id = bet_id + 1;
        bet_id
    }

    /// Places a stake for a party whose identity the host has proved. On
    /// success the entry is recorded, the pool grows by `amount`, and the
    /// returned deposit must move `amount` into custody before the new
    /// state may be persisted; on an error nothing changes.
    pub fn place_bet(
        &mut self,
        bettor: AccountId,
        bet_id: u64,
        option_index: u32,
        amount: i128,
        token: AccountId,
    ) -> (r: Result<Deposit, Error>)
        requires
            old(self).wf(),
            amount > 0,
            old(self).stake_fits(bet_id, amount),
        ensures
            final(self).wf(),
            ({
                let e = old(self).place_error(bettor, bet_id, option_index);
                match r {
                    Err(err) => e == Some(err) && *final(self) == *old(self),
                    Ok(d) => {
                        &&& e is None
                        &&& d == (Deposit { token, from: bettor, amount })
                        &&& final(self).next_bet_id == old(self).next_bet_id
                        &&& final(self).bets@.len() == old(self).bets@.len()
                        &&& forall|j: int|
                            0 <= j < old(self).bets@.len() && j != bet_id - 1
                                ==> final(self).bets@[j] == old(self).bets@[j]
                        &&& stake_added(
                            old(self).bet_at(bet_id),
                            final(self).bet_at(bet_id),
                            bettor,
                            option_index,
                            amount,
                        )
                    },
                }
            }),
    {
        if bet_id < 1 || bet_id > self.bets.len() as u64 {
            return Err(Error::NotFound);
        }
        let idx: usize = (bet_id - 1) as usize;
        if self.bets[idx].is_resolved {
            return Err(Error::AlreadyResolved);
        }
        if !((option_index as usize) < self.bets[idx].options.len()) {
            return Err(Error::InvalidOption);
        }
        if contains_bettor(&self.bets[idx].stakes, bettor) {
            return Err(Error::DuplicateStake);
        }
        let ghost old_bet = self.bets@[idx as int];
        let bet = &mut self.bets[idx];
        bet.stakes.push(StakeEntry { bettor, option_index, amount });
        bet.total_pot = bet.total_pot + amount;
        proof {
            lemma_sum_amounts_push(old_bet.stakes@, StakeEntry { bettor, option_index, amount });
        }
        Ok(Deposit { token, from: bettor, amount })
    }

    /// Resolves a wager: only its arbiter — with identity proved by the
    /// host — may declare the winning option, exactly once; the transition
    /// is terminal. On an error nothing changes.
    pub fn resolve_bet(&mut self, oracle: AccountId, bet_id: u64, winning_option_index: u32) -> (r:
        Result<(), Error>)
        requires
            old(self).wf(),
        ensures
            final(self).wf(),
            ({
                let e = old(self).resolve_error(oracle, bet_id, winning_option_index);
                match r {
                    Err(err) => e == Some(err) && *final(self) == *old(self),
                    Ok(u) => {
                        &&& e is None
                        &&& final(self).next_bet_id == old(self).next_bet_id
                        &&& final(self).bets@.len() == old(self).bets@.len()
                        &&& forall|j: int|
                            0 <= j < old(self).bets@.len() && j != bet_id - 1
                                ==> final(self).bets@[j] == old(self).bets@[j]
                        &&& resolution_applied(
                            old(self).bet_at(bet_id),
                            final(self).bet_at(bet_id),
                            winning_option_index,
                        )
                    },
                }
            }),
    {
        if bet_id < 1 || bet_id > self.bets.len() as u64 {
            return Err(Error::NotFound);
        }
        let idx: usize = (bet_id - 1) as usize;
        if !(oracle == self.bets[idx].oracle) {
            return Err(Error::Forbidden);
        }
        if self.bets[idx].is_resolved {
            return Err(Error::AlreadyResolved);
        }
        if !((winning_option_index as usize) < self.bets[idx].options.len()) {
            return Err(Error::InvalidOption);
        }
        proof {
            lemma_winning_sum_le_sum(self.bets@[idx as int].stakes@, winning_option_index);
        }
        let frozen: i128 = winning_total(&self.bets[idx].stakes, winning_option_index);
        let bet = &mut self.bets[idx];
        bet.is_resolved = true;
        bet.winning_option = Some(winning_option_index);
        bet.winning_total = frozen;
        Ok(())
    }

    /// Pays a claim for a party whose identity the host has proved: a
    /// winner receives the floored proportional share of the all-time pool,
    /// measured against the winning-stake sum frozen at resolution; a loser
    /// receives zero; either way the party's entry leaves the book, so no
    /// second claim can succeed. The returned payout, when positive,
    /// must move out of custody before the new state may be persisted; on
    /// an error nothing changes.
    pub fn claim_winnings(&mut self, claimer: AccountId, bet_id: u64, token: AccountId) -> (r:
        Result<Payout, Error>)
        requires
            old(self).wf(),
            old(self).claim_fits(claimer, bet_id),
        ensures
            final(self).wf(),
            ({
                let e = old(self).claim_error(claimer, bet_id);
                match r {
                    Err(err) => e == Some(err) && *final(self) == *old(self),
                    Ok(p) => {
                        &&& e is None
                        &&& p.token == token
                        &&& p.to == claimer
                        &&& p.amount == payout_amount(old(self).bet_at(bet_id), claimer)
                        &&& final(self).next_bet_id == old(self).next_bet_id
                        &&& final(self).bets@.len() == old(self).bets@.len()
                        &&& forall|j: int|
                            0 <= j < old(self).bets@.len() && j != bet_id - 1
                                ==> final(self).bets@[j] == old(self).bets@[j]
                        &&& claim_applied(
                            old(self).bet_at(bet_id),
                            final(self).bet_at(bet_id),
                            claimer,
                        )
                    },
                }
            }),
    {
        if bet_id < 1 || bet_id > self.bets.len() as u64 {
            return Err(Error::NotFound);
        }
        let idx: usize = (bet_id - 1) as usize;
        if !self.bets[idx].is_resolved {
            return Err(Error::NotResolved);
        }
        let found = find_stake_index(&self.bets[idx].stakes, claimer);
        let sidx: usize = match found {
            None => {
                return Err(Error::NoStake);
            },
            Some(k) => k,
        };
        let entry: StakeEntry = self.bets[idx].stakes[sidx];
        proof {
            let s = self.bets@[idx as int].stakes@;
            let k = choose|k: int| 0 <= k < s.len() && s[k].bettor == claimer;
            assert(s[k] == s[sidx as int]);
            assert(stake_of(s, claimer) == entry);
        }
        let winning: u32 = match self.bets[idx].winning_option {
            Some(w) => w,
            // a resolved wager always carries its winning option
            None => unreached(),
        };
        let payout: i128 = if entry.option_index == winning {
            let s_total: i128 = self.bets[idx].winning_total;
            if s_total > 0 {
                (entry.amount * self.bets[idx].total_pot) / s_total
            } else {
                0
            }
        } else {
            0
        };
        let new_stakes = removed_stakes(&self.bets[idx].stakes, claimer);
        proof {
            let s = self.bets@[idx as int].stakes@;
            lemma_remove_stake_no_bettor(s, claimer);
            lemma_remove_stake_unique(s, claimer);
            lemma_remove_stake_membership(s, claimer);
            lemma_remove_stake_sum_le(s, claimer);
            lemma_remove_stake_winning_sum_le(s, claimer, winning);
        }
        let bet = &mut self.bets[idx];
        bet.stakes = new_stakes;
        Ok(Payout { token, to: claimer, amount: payout })
    }

    /// The wager with this identifier, if it exists.
    pub fn get_bet(&self, bet_id: u64) -> (r: Option<&Bet>)
        ensures
            match r {
                Some(b) => self.has_bet(bet_id) && *b == self.bet_at(bet_id),
                None => !self.has_bet(bet_id),
            },
    {
        if 1 <= bet_id && bet_id <= self.bets.len() as u64 {
            Some(&self.bets[(bet_id - 1) as usize])
        } else {
            None
        }
    }

    /// How many wagers have been created.
    pub fn get_bets_count(&self) -> (r: u64)
        requires
            self.wf(),
        ensures
            r == self.bets@.len(),
    {
        self.next_bet_id - 1
    }
}

} // verus!
