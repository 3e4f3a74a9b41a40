//! The stake book of a single wager: a sequence of entries, one per staking
//! party, with spec-level sums and the lemmas the operations need.

use vstd::prelude::*;

verus! {

/// An account, named by an opaque identifier the host assigns.
#[derive(Clone, Copy, PartialEq, Eq, Structural, Hash, Debug)]
pub struct AccountId(pub u64);

/// One party's commitment to a wager: the chosen option and the staked amount.
#[derive(Clone, Copy, PartialEq, Eq, Structural, Debug)]
pub struct StakeEntry {
    pub bettor: AccountId,
    pub option_index: u32,
    pub amount: i128,
}

/// Each staking party appears at most once.
pub open spec fn unique_bettors(s: Seq<StakeEntry>) -> bool {
    forall|i: int, j: int|
        0 <= i < s.len() && 0 <= j < s.len() && i != j ==> s[i].bettor != s[j].bettor
}

/// Whether `who` holds a stake.
pub open spec fn has_stake(s: Seq<StakeEntry>, who: AccountId) -> bool {
    exists|i: int| 0 <= i < s.len() && s[i].bettor == who
}

/// The entry of `who`; the one such entry when `unique_bettors(s)` and
/// `has_stake(s, who)` hold.
pub open spec fn stake_of(s: Seq<StakeEntry>, who: AccountId) -> StakeEntry
    recommends
        has_stake(s, who),
{
    s[choose|i: int| 0 <= i < s.len() && s[i].bettor == who]
}

/// The sum of all staked amounts.
pub open spec fn sum_amounts(s: Seq<StakeEntry>) -> int
    decreases s.len(),
{
    if s.len() == 0 {
        0
    } else {
        sum_amounts(s.drop_last()) + s.last().amount
    }
}

/// The sum of the amounts staked on option `w`.
pub open spec fn winning_sum(s: Seq<StakeEntry>, w: u32) -> int
    decreases s.len(),
{
    if s.len() == 0 {
        0
    } else {
        winning_sum(s.drop_last(), w) + if s.last().option_index == w {
            s.last().amount as int
        } else {
            0
        }
    }
}

/// The stakes with every entry of `who` taken out.
pub open spec fn remove_stake(s: Seq<StakeEntry>, who: AccountId) -> Seq<StakeEntry>
    decreases s.len(),
{
    if s.len() == 0 {
        Seq::empty()
    } else if s.last().bettor == who {
        remove_stake(s.drop_last(), who)
    } else {
        remove_stake(s.drop_last(), who).push(s.last())
    }
}

/// Appending an entry adds its amount to the total.
pub proof fn lemma_sum_amounts_push(s: Seq<StakeEntry>, e: StakeEntry)
    ensures
        sum_amounts(s.push(e)) == sum_amounts(s) + e.amount,
{
    assert(s.push(e).drop_last() =~= s);
}

/// Appending an entry adds its amount to the winning sum exactly when it
/// backs the winning option.
pub proof fn lemma_winning_sum_push(s: Seq<StakeEntry>, e: StakeEntry, w: u32)
    ensures
        winning_sum(s.push(e), w) == winning_sum(s, w) + if e.option_index == w {
            e.amount as int
        } else {
            0
        },
{
    assert(s.push(e).drop_last() =~= s);
}

/// With no negative amounts, both sums are non-negative and the winning sum
/// never exceeds the total.
pub proof fn lemma_winning_sum_le_sum(s: Seq<StakeEntry>, w: u32)
    requires
        forall|i: int| 0 <= i < s.len() ==> (#[trigger] s[i]).amount >= 0,
    ensures
        0 <= winning_sum(s, w),
        winning_sum(s, w) <= sum_amounts(s),
        0 <= sum_amounts(s),
    decreases s.len(),
{
    if s.len() > 0 {
        lemma_winning_sum_le_sum(s.drop_last(), w);
    }
}

/// The sum over a prefix never exceeds the sum over the whole book, when no
/// amount is negative.
pub proof fn lemma_sum_prefix_le(s: Seq<StakeEntry>, n: int)
    requires
        0 <= n <= s.len(),
        forall|i: int| 0 <= i < s.len() ==> (#[trigger] s[i]).amount >= 0,
    ensures
        sum_amounts(s.subrange(0, n)) <= sum_amounts(s),
    decreases s.len() - n,
{
    if n == s.len() {
        assert(s.subrange(0, n) =~= s);
    } else {
        lemma_sum_prefix_le(s, n + 1);
        assert(s.subrange(0, n + 1).drop_last() =~= s.subrange(0, n));
    }
}

/// A matching entry contributes its whole amount to the winning sum.
pub proof fn lemma_winning_sum_ge_entry(s: Seq<StakeEntry>, w: u32, k: int)
    requires
        0 <= k < s.len(),
        s[k].option_index == w,
        forall|i: int| 0 <= i < s.len() ==> (#[trigger] s[i]).amount >= 0,
    ensures
        winning_sum(s, w) >= s[k].amount,
    decreases s.len(),
{
    if k == s.len() - 1 {
        lemma_winning_sum_le_sum(s.drop_last(), w);
    } else {
        lemma_winning_sum_ge_entry(s.drop_last(), w, k);
    }
}

/// Whatever `remove_stake` keeps was already in the book.
pub proof fn lemma_remove_stake_membership(s: Seq<StakeEntry>, who: AccountId)
    ensures
        forall|i: int|
            0 <= i < remove_stake(s, who).len() ==> exists|j: int|
                0 <= j < s.len() && #[trigger] remove_stake(s, who)[i] == s[j],
    decreases s.len(),
{
    if s.len() > 0 {
        lemma_remove_stake_membership(s.drop_last(), who);
        let r = remove_stake(s, who);
        let rd = remove_stake(s.drop_last(), who);
        assert forall|i: int| 0 <= i < r.len() implies exists|j: int|
            0 <= j < s.len() && #[trigger] r[i] == s[j] by {
            if s.last().bettor == who || i < rd.len() {
                let j = choose|j: int| 0 <= j < s.drop_last().len() && rd[i] == s.drop_last()[j];
                assert(r[i] == s[j]);
            } else {
                assert(r[i] == s[s.len() - 1]);
            }
        }
    }
}

/// After removal, `who` holds no stake.
pub proof fn lemma_remove_stake_no_bettor(s: Seq<StakeEntry>, who: AccountId)
    ensures
        !has_stake(remove_stake(s, who), who),
    decreases s.len(),
{
    if s.len() > 0 {
        lemma_remove_stake_no_bettor(s.drop_last(), who);
    }
}

/// Removal keeps the parties pairwise distinct.
pub proof fn lemma_remove_stake_unique(s: Seq<StakeEntry>, who: AccountId)
    requires
        unique_bettors(s),
    ensures
        unique_bettors(remove_stake(s, who)),
    decreases s.len(),
{
    if s.len() > 0 {
        assert(forall|i: int, j: int|
            0 <= i < s.drop_last().len() && 0 <= j < s.drop_last().len() && i != j
                ==> s.drop_last()[i].bettor != s.drop_last()[j].bettor);
        lemma_remove_stake_unique(s.drop_last(), who);
        if s.last().bettor != who {
            lemma_remove_stake_membership(s.drop_last(), who);
            let r = remove_stake(s, who);
            let rd = remove_stake(s.drop_last(), who);
            assert forall|i: int, j: int|
                0 <= i < r.len() && 0 <= j < r.len() && i != j implies r[i].bettor
                != r[j].bettor by {
                if i < rd.len() && j < rd.len() {
                } else if i < rd.len() {
                    let k = choose|k: int|
                        0 <= k < s.drop_last().len() && rd[i] == s.drop_last()[k];
                    assert(r[j] == s.last());
                    assert(r[i].bettor == s[k].bettor);
                } else {
                    let k = choose|k: int|
                        0 <= k < s.drop_last().len() && rd[j] == s.drop_last()[k];
                    assert(r[i] == s.last());
                    assert(r[j].bettor == s[k].bettor);
                }
            }
        }
    }
}

/// Removal never increases the total, when no amount is negative.
pub proof fn lemma_remove_stake_sum_le(s: Seq<StakeEntry>, who: AccountId)
    requires
        forall|i: int| 0 <= i < s.len() ==> (#[trigger] s[i]).amount >= 0,
    ensures
        sum_amounts(remove_stake(s, who)) <= sum_amounts(s),
    decreases s.len(),
{
    if s.len() > 0 {
        lemma_remove_stake_sum_le(s.drop_last(), who);
        if s.last().bettor != who {
            lemma_sum_amounts_push(remove_stake(s.drop_last(), who), s.last());
        }
    }
}

/// Removal never increases the winning sum, when no amount is negative.
pub proof fn lemma_remove_stake_winning_sum_le(s: Seq<StakeEntry>, who: AccountId, w: u32)
    requires
        forall|i: int| 0 <= i < s.len() ==> (#[trigger] s[i]).amount >= 0,
    ensures
        winning_sum(remove_stake(s, who), w) <= winning_sum(s, w),
    decreases s.len(),
{
    if s.len() > 0 {
        lemma_remove_stake_winning_sum_le(s.drop_last(), who, w);
        if s.last().bettor == who {
            assert(s.last() == s[s.len() - 1]);
        } else {
            lemma_winning_sum_push(remove_stake(s.drop_last(), who), s.last(), w);
        }
    }
}

/// Removing one party leaves every other party's entry in place, unchanged.
pub proof fn lemma_remove_stake_keeps_others(s: Seq<StakeEntry>, removed: AccountId, who: AccountId)
    requires
        unique_bettors(s),
        who != removed,
        has_stake(s, who),
    ensures
        has_stake(remove_stake(s, removed), who),
        stake_of(remove_stake(s, removed), who) == stake_of(s, who),
    decreases s.len(),
{
    lemma_remove_stake_has_other(s, removed, who);
    lemma_remove_stake_membership(s, removed);
    let r = remove_stake(s, removed);
    let i0 = choose|i: int| 0 <= i < s.len() && s[i].bettor == who;
    let k = choose|k: int| 0 <= k < r.len() && r[k].bettor == who;
    let j = choose|j: int| 0 <= j < s.len() && r[k] == s[j];
    assert(s[j].bettor == who);
    assert(j == i0);
    assert(stake_of(r, who) == r[k]);
    assert(stake_of(s, who) == s[i0]);
}

/// Removing one party keeps every other staked party in the book.
proof fn lemma_remove_stake_has_other(s: Seq<StakeEntry>, removed: AccountId, who: AccountId)
    requires
        who != removed,
        has_stake(s, who),
    ensures
        has_stake(remove_stake(s, removed), who),
    decreases s.len(),
{
    if s.len() > 0 {
        let k = choose|k: int| 0 <= k < s.len() && s[k].bettor == who;
        if s.last().bettor == removed {
            assert(s.drop_last()[k] == s[k]);
            lemma_remove_stake_has_other(s.drop_last(), removed, who);
        } else {
            let r = remove_stake(s.drop_last(), removed).push(s.last());
            if s.last().bettor == who {
                assert(r[r.len() - 1].bettor == who);
            } else {
                assert(k < s.len() - 1);
                assert(s.drop_last()[k] == s[k]);
                lemma_remove_stake_has_other(s.drop_last(), removed, who);
                let rd = remove_stake(s.drop_last(), removed);
                let m = choose|m: int| 0 <= m < rd.len() && rd[m].bettor == who;
                assert(r[m].bettor == who);
            }
        }
    }
}

/// Whether `who` already holds a stake.
pub fn contains_bettor(s: &Vec<StakeEntry>, who: AccountId) -> (r: bool)
    ensures
        r == has_stake(s@, who),
{
    let mut i: usize = 0;
    while i < s.len()
        invariant
            i <= s@.len(),
            forall|j: int| 0 <= j < i ==> (#[trigger] s@[j]).bettor != who,
        decreases s@.len() - i,
    {
        if s[i].bettor == who {
            return true;
        }
        i = i + 1;
    }
    false
}

/// The position of `who`'s entry, if any.
pub fn find_stake_index(s: &Vec<StakeEntry>, who: AccountId) -> (r: Option<usize>)
    ensures
        match r {
            Some(i) => i < s@.len() && s@[i as int].bettor == who,
            None => !has_stake(s@, who),
        },
{
    let mut i: usize = 0;
    while i < s.len()
        invariant
            i <= s@.len(),
            forall|j: int| 0 <= j < i ==> (#[trigger] s@[j]).bettor != who,
        decreases s@.len() - i,
    {
        if s[i].bettor == who {
            return Some(i);
        }
        i = i + 1;
    }
    None
}

/// Sums the amounts staked on option `w`; the running total stays within
/// `i128` because it never exceeds the sum of all amounts.
pub fn winning_total(s: &Vec<StakeEntry>, w: u32) -> (r: i128)
    requires
        forall|i: int| 0 <= i < s@.len() ==> (#[trigger] s@[i]).amount >= 0,
        sum_amounts(s@) <= i128::MAX,
    ensures
        r == winning_sum(s@, w),
        0 <= r,
{
    let mut total: i128 = 0;
    let mut i: usize = 0;
    while i < s.len()
        invariant
            i <= s@.len(),
            forall|j: int| 0 <= j < s@.len() ==> (#[trigger] s@[j]).amount >= 0,
            sum_amounts(s@) <= i128::MAX,
            total == winning_sum(s@.subrange(0, i as int), w),
            0 <= total,
            total <= sum_amounts(s@.subrange(0, i as int)),
        decreases s@.len() - i,
    {
        proof {
            assert(s@.subrange(0, i + 1).drop_last() =~= s@.subrange(0, i as int));
            lemma_sum_prefix_le(s@, i + 1);
            assert(forall|j: int|
                0 <= j < s@.subrange(0, i as int).len()
                    ==> (#[trigger] s@.subrange(0, i as int)[j]).amount >= 0);
            lemma_winning_sum_le_sum(s@.subrange(0, i as int), w);
        }
        if s[i].option_index == w {
            total = total + s[i].amount;
        }
        i = i + 1;
    }
    proof {
        assert(s@.subrange(0, s@.len() as int) =~= s@);
    }
    total
}

/// The stake book with `who`'s entry taken out.
pub fn removed_stakes(s: &Vec<StakeEntry>, who: AccountId) -> (r: Vec<StakeEntry>)
    ensures
        r@ == remove_stake(s@, who),
{
    let mut out: Vec<StakeEntry> = Vec::new();
    let mut i: usize = 0;
    while i < s.len()
        invariant
            i <= s@.len(),
            out@ == remove_stake(s@.subrange(0, i as int), who),
        decreases s@.len() - i,
    {
        proof {
            assert(s@.subrange(0, i + 1).drop_last() =~= s@.subrange(0, i as int));
        }
        if !(s[i].bettor == who) {
            out.push(s[i]);
        }
        i = i + 1;
    }
    proof {
        assert(s@.subrange(0, s@.len() as int) =~= s@);
    }
    out
}

} // verus!
