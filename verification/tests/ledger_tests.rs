//! End-to-end tests of the wager ledger: lifecycle, error taxonomy, and the
//! pari-mutuel payout arithmetic.

use wager_ledger::ledger::BettingContract;
use wager_ledger::ledger::Deposit;
use wager_ledger::ledger::Error;
use wager_ledger::stakes::AccountId;

fn oracle() -> AccountId {
    AccountId(1)
}

fn token() -> AccountId {
    AccountId(99)
}

fn yes_no() -> Vec<String> {
    vec![String::from("yes"), String::from("no")]
}

#[test]
fn initialize_starts_empty() {
    let ledger = BettingContract::initialize();
    assert_eq!(ledger.get_bets_count(), 0);
    assert!(ledger.get_bet(1).is_none());
}

#[test]
fn create_assigns_dense_ids() {
    let mut ledger = BettingContract::initialize();
    let first = ledger.create_bet(oracle(), String::from("rain tomorrow?"), yes_no());
    let second = ledger.create_bet(AccountId(2), String::from("snow tomorrow?"), yes_no());
    assert_eq!(first, 1);
    assert_eq!(second, 2);
    assert_eq!(ledger.get_bets_count(), 2);

    let bet = ledger.get_bet(1).unwrap();
    assert_eq!(bet.id, 1);
    assert_eq!(bet.question, "rain tomorrow?");
    assert_eq!(bet.options, yes_no());
    assert_eq!(bet.oracle, oracle());
    assert!(!bet.is_resolved);
    assert_eq!(bet.winning_option, None);
    assert_eq!(bet.total_pot, 0);
    assert!(bet.stakes.is_empty());
    assert_eq!(ledger.get_bet(2).unwrap().oracle, AccountId(2));
}

#[test]
fn pool_accumulates_accepted_stakes() {
    let mut ledger = BettingContract::initialize();
    let id = ledger.create_bet(oracle(), String::from("q"), yes_no());
    let deposit = ledger.place_bet(AccountId(10), id, 0, 100, token()).unwrap();
    assert_eq!(deposit, Deposit { token: token(), from: AccountId(10), amount: 100 });
    ledger.place_bet(AccountId(11), id, 1, 300, token()).unwrap();
    ledger.place_bet(AccountId(12), id, 0, 50, token()).unwrap();

    let bet = ledger.get_bet(id).unwrap();
    assert_eq!(bet.total_pot, 450);
    assert_eq!(bet.stakes.len(), 3);
    for (i, entry) in bet.stakes.iter().enumerate() {
        for (j, other) in bet.stakes.iter().enumerate() {
            assert!(i == j || entry.bettor != other.bettor);
        }
    }
}

#[test]
fn place_on_missing_wager_is_not_found() {
    let mut ledger = BettingContract::initialize();
    assert_eq!(ledger.place_bet(AccountId(10), 1, 0, 100, token()), Err(Error::NotFound));
    ledger.create_bet(oracle(), String::from("q"), yes_no());
    assert_eq!(ledger.place_bet(AccountId(10), 2, 0, 100, token()), Err(Error::NotFound));
    assert_eq!(ledger.place_bet(AccountId(10), 0, 0, 100, token()), Err(Error::NotFound));
}

#[test]
fn place_on_bad_option_is_invalid_option() {
    let mut ledger = BettingContract::initialize();
    let id = ledger.create_bet(oracle(), String::from("q"), yes_no());
    assert_eq!(ledger.place_bet(AccountId(10), id, 2, 100, token()), Err(Error::InvalidOption));
    assert_eq!(ledger.get_bet(id).unwrap().total_pot, 0);
}

#[test]
fn second_stake_by_same_party_is_duplicate() {
    let mut ledger = BettingContract::initialize();
    let id = ledger.create_bet(oracle(), String::from("q"), yes_no());
    ledger.place_bet(AccountId(10), id, 0, 100, token()).unwrap();
    assert_eq!(ledger.place_bet(AccountId(10), id, 1, 25, token()), Err(Error::DuplicateStake));
    let bet = ledger.get_bet(id).unwrap();
    assert_eq!(bet.total_pot, 100);
    assert_eq!(bet.stakes.len(), 1);
}

#[test]
fn resolution_is_terminal_for_staking_and_resolving() {
    let mut ledger = BettingContract::initialize();
    let id = ledger.create_bet(oracle(), String::from("q"), yes_no());
    ledger.place_bet(AccountId(10), id, 0, 100, token()).unwrap();
    ledger.resolve_bet(oracle(), id, 0).unwrap();

    assert_eq!(ledger.place_bet(AccountId(11), id, 0, 100, token()), Err(Error::AlreadyResolved));
    assert_eq!(ledger.resolve_bet(oracle(), id, 1), Err(Error::AlreadyResolved));
    let bet = ledger.get_bet(id).unwrap();
    assert_eq!(bet.winning_option, Some(0));
    assert_eq!(bet.total_pot, 100);
}

#[test]
fn resolve_errors() {
    let mut ledger = BettingContract::initialize();
    assert_eq!(ledger.resolve_bet(oracle(), 1, 0), Err(Error::NotFound));
    let id = ledger.create_bet(oracle(), String::from("q"), yes_no());
    assert_eq!(ledger.resolve_bet(AccountId(66), id, 0), Err(Error::Forbidden));
    assert_eq!(ledger.resolve_bet(oracle(), id, 2), Err(Error::InvalidOption));
    assert!(!ledger.get_bet(id).unwrap().is_resolved);
}

#[test]
fn claim_before_resolve_is_not_resolved() {
    let mut ledger = BettingContract::initialize();
    let id = ledger.create_bet(oracle(), String::from("q"), yes_no());
    ledger.place_bet(AccountId(10), id, 0, 100, token()).unwrap();
    assert_eq!(ledger.claim_winnings(AccountId(10), id, token()), Err(Error::NotResolved));
    let bet = ledger.get_bet(id).unwrap();
    assert_eq!(bet.stakes.len(), 1);
    assert_eq!(bet.total_pot, 100);
}

#[test]
fn claim_on_missing_wager_is_not_found() {
    let mut ledger = BettingContract::initialize();
    assert_eq!(ledger.claim_winnings(AccountId(10), 7, token()), Err(Error::NotFound));
}

#[test]
fn claim_without_stake_is_no_stake() {
    let mut ledger = BettingContract::initialize();
    let id = ledger.create_bet(oracle(), String::from("q"), yes_no());
    ledger.place_bet(AccountId(10), id, 0, 100, token()).unwrap();
    ledger.resolve_bet(oracle(), id, 0).unwrap();
    assert_eq!(ledger.claim_winnings(AccountId(55), id, token()), Err(Error::NoStake));
}

#[test]
fn single_winner_takes_whole_pool() {
    let mut ledger = BettingContract::initialize();
    let id = ledger.create_bet(oracle(), String::from("q"), yes_no());
    ledger.place_bet(AccountId(10), id, 0, 100, token()).unwrap();
    ledger.place_bet(AccountId(11), id, 1, 300, token()).unwrap();
    ledger.resolve_bet(oracle(), id, 0).unwrap();

    let won = ledger.claim_winnings(AccountId(10), id, token()).unwrap();
    assert_eq!(won.to, AccountId(10));
    assert_eq!(won.token, token());
    assert_eq!(won.amount, 400);

    let lost = ledger.claim_winnings(AccountId(11), id, token()).unwrap();
    assert_eq!(lost.amount, 0);

    assert_eq!(ledger.claim_winnings(AccountId(10), id, token()), Err(Error::NoStake));
    let bet = ledger.get_bet(id).unwrap();
    assert!(bet.stakes.is_empty());
    assert_eq!(bet.total_pot, 400);
}

#[test]
fn second_claim_by_same_party_is_no_stake() {
    let mut ledger = BettingContract::initialize();
    let id = ledger.create_bet(oracle(), String::from("q"), yes_no());
    ledger.place_bet(AccountId(10), id, 1, 40, token()).unwrap();
    ledger.resolve_bet(oracle(), id, 0).unwrap();
    assert_eq!(ledger.claim_winnings(AccountId(10), id, token()).unwrap().amount, 0);
    assert_eq!(ledger.claim_winnings(AccountId(10), id, token()), Err(Error::NoStake));
}

#[test]
fn winners_split_pool_by_frozen_winning_sum() {
    let mut ledger = BettingContract::initialize();
    let id = ledger.create_bet(oracle(), String::from("q"), yes_no());
    ledger.place_bet(AccountId(10), id, 0, 100, token()).unwrap();
    ledger.place_bet(AccountId(11), id, 0, 300, token()).unwrap();
    ledger.place_bet(AccountId(12), id, 1, 100, token()).unwrap();
    ledger.resolve_bet(oracle(), id, 0).unwrap();
    assert_eq!(ledger.get_bet(id).unwrap().winning_total, 400);

    // Pool 500, winning sum 400 frozen at resolution: the shares are
    // floor(100 * 500 / 400) = 125 and floor(300 * 500 / 400) = 375,
    // together exactly the pool, whatever the claim order.
    let first = ledger.claim_winnings(AccountId(10), id, token()).unwrap();
    assert_eq!(first.amount, 125);
    let second = ledger.claim_winnings(AccountId(11), id, token()).unwrap();
    assert_eq!(second.amount, 375);
    assert_eq!(first.amount + second.amount, 500);

    let bet = ledger.get_bet(id).unwrap();
    assert_eq!(bet.total_pot, 500);
    assert_eq!(bet.winning_total, 400);
}

#[test]
fn truncated_shares_strand_the_remainder() {
    let mut ledger = BettingContract::initialize();
    let id = ledger.create_bet(oracle(), String::from("q"), yes_no());
    ledger.place_bet(AccountId(10), id, 0, 1, token()).unwrap();
    ledger.place_bet(AccountId(11), id, 0, 1, token()).unwrap();
    ledger.place_bet(AccountId(12), id, 0, 1, token()).unwrap();
    ledger.place_bet(AccountId(13), id, 1, 7, token()).unwrap();
    ledger.resolve_bet(oracle(), id, 0).unwrap();

    // Pool 10, winning sum 3 frozen at resolution: every winner gets
    // floor(1 * 10 / 3) = 3; 9 of the 10 are claimed and the remaining
    // unit stays in custody.
    let mut claimed: i128 = 0;
    claimed += ledger.claim_winnings(AccountId(10), id, token()).unwrap().amount;
    claimed += ledger.claim_winnings(AccountId(11), id, token()).unwrap().amount;
    claimed += ledger.claim_winnings(AccountId(12), id, token()).unwrap().amount;
    assert_eq!(claimed, 9);
    assert_eq!(ledger.claim_winnings(AccountId(13), id, token()).unwrap().amount, 0);
}

#[test]
fn claim_order_does_not_change_shares() {
    let mut ledger = BettingContract::initialize();
    let id = ledger.create_bet(oracle(), String::from("q"), yes_no());
    ledger.place_bet(AccountId(10), id, 0, 100, token()).unwrap();
    ledger.place_bet(AccountId(11), id, 0, 300, token()).unwrap();
    ledger.place_bet(AccountId(12), id, 1, 100, token()).unwrap();
    ledger.resolve_bet(oracle(), id, 0).unwrap();

    // The same wager as winners_split_pool_by_frozen_winning_sum, claimed
    // in the other order: the shares are unchanged.
    let second = ledger.claim_winnings(AccountId(11), id, token()).unwrap();
    assert_eq!(second.amount, 375);
    let first = ledger.claim_winnings(AccountId(10), id, token()).unwrap();
    assert_eq!(first.amount, 125);
}

#[test]
fn wagers_are_independent() {
    let mut ledger = BettingContract::initialize();
    let a = ledger.create_bet(oracle(), String::from("a"), yes_no());
    let b = ledger.create_bet(oracle(), String::from("b"), yes_no());
    ledger.place_bet(AccountId(10), a, 0, 100, token()).unwrap();
    ledger.place_bet(AccountId(10), b, 1, 70, token()).unwrap();
    ledger.resolve_bet(oracle(), a, 0).unwrap();

    assert!(ledger.get_bet(a).unwrap().is_resolved);
    assert!(!ledger.get_bet(b).unwrap().is_resolved);
    assert_eq!(ledger.get_bet(a).unwrap().total_pot, 100);
    assert_eq!(ledger.get_bet(b).unwrap().total_pot, 70);
}
