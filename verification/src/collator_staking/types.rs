use vstd::prelude::*;

use crate::collator_staking::bond::Bond;
use crate::collator_staking::set::{
    collected, descending, holds_owner, index_of, inserted, position_of, restaked, OrderedSet,
};

verus! {

/// The index of a round; a round is a session.
pub type RoundIndex = u32;

/// Where a candidate stands in the candidate pool.
#[derive(Clone, Copy, Debug, PartialEq, Eq, Structural)]
pub enum CandidateStatus {
    /// Committed to be online and producing valid blocks (not equivocating).
    Active,
    /// Leaving the pool from the given round on.
    Leaving(RoundIndex),
}

impl Default for CandidateStatus {
    fn default() -> (r: CandidateStatus)
        ensures
            r == CandidateStatus::Active,
    {
        CandidateStatus::Active
    }
}

/// A collator candidate: its own stake, the delegators that back it, and
/// the total backing it has.
#[derive(Clone, Debug)]
pub struct Candidate {
    /// The candidate's staking amount.
    pub bond: u128,
    /// The delegators that back the candidate.
    pub delegators: OrderedSet,
    /// The total backing the candidate has.
    pub total_bond: u128,
    /// Whether the candidate is active or leaving the pool.
    pub status: CandidateStatus,
}

/// `x + y`, or the greatest `u128` where the sum exceeds it.
pub open spec fn sat_add(x: u128, y: u128) -> u128 {
    if x + y > u128::MAX {
        u128::MAX
    } else {
        (x + y) as u128
    }
}

/// `x - y`, or zero where `y` exceeds `x`.
pub open spec fn sat_sub(x: u128, y: u128) -> u128 {
    if x < y {
        0
    } else {
        (x - y) as u128
    }
}

impl Candidate {
    pub open spec fn wf(&self) -> bool {
        self.delegators.wf()
    }

    /// A new active candidate staking `stake`, with no delegator yet; its
    /// delegator set holds at most `max_delegators`.
    pub fn new(stake: u128, max_delegators: u32) -> (r: Candidate)
        ensures
            r.wf(),
            r.bond == stake,
            r.total_bond == stake,
            r.delegators@ == Seq::<Bond>::empty(),
            r.delegators.bound() == max_delegators,
            r.status == CandidateStatus::Active,
    {
        let total_bond = stake;
        Candidate {
            bond: stake,
            delegators: OrderedSet::new(max_delegators),
            total_bond,
            status: CandidateStatus::default(),
        }
    }

    pub fn is_active(&self) -> (r: bool)
        ensures
            r == (self.status == CandidateStatus::Active),
    {
        match self.status {
            CandidateStatus::Active => true,
            CandidateStatus::Leaving(_) => false,
        }
    }

    pub fn is_leaving(&self) -> (r: bool)
        ensures
            r == (self.status is Leaving),
    {
        match self.status {
            CandidateStatus::Active => false,
            CandidateStatus::Leaving(_) => true,
        }
    }

    /// Whether the candidate leaves at or before round `when`.
    pub fn can_exit(&self, when: u32) -> (r: bool)
        ensures
            r == (self.status matches CandidateStatus::Leaving(at) && at <= when),
    {
        match self.status {
            CandidateStatus::Leaving(at) => at <= when,
            CandidateStatus::Active => false,
        }
    }

    pub fn revert_leaving(&mut self)
        ensures
            *final(self) == (Candidate { status: CandidateStatus::Active, ..*old(self) }),
    {
        self.status = CandidateStatus::Active;
    }

    /// Adds `more` to the candidate's stake and to its total backing,
    /// saturating.
    pub fn stake_more(&mut self, more: u128)
        ensures
            *final(self) == (Candidate {
                bond: sat_add(old(self).bond, more),
                total_bond: sat_add(old(self).total_bond, more),
                ..*old(self)
            }),
    {
        self.bond = self.bond.saturating_add(more);
        self.total_bond = self.total_bond.saturating_add(more);
    }

    /// Takes `less` from the candidate's stake and its total backing and
    /// returns the stake left; `None`, with nothing changed, when `less` is
    /// no smaller than the stake (the candidate should then leave).
    pub fn stake_less(&mut self, less: u128) -> (r: Option<u128>)
        ensures
            old(self).bond > less ==> r == Some((old(self).bond - less) as u128) && *final(self)
                == (Candidate {
                bond: (old(self).bond - less) as u128,
                total_bond: sat_sub(old(self).total_bond, less),
                ..*old(self)
            }),
            old(self).bond <= less ==> r is None && *final(self) == *old(self),
    {
        if self.bond > less {
            self.bond = self.bond.saturating_sub(less);
            self.total_bond = self.total_bond.saturating_sub(less);
            Some(self.bond)
        } else {
            None
        }
    }

    /// Adds `more` to the bond of `delegator` among the candidate's
    /// delegators, which moves to its place by stake, and to the total
    /// backing, saturating; nothing changes when `delegator` does not back
    /// the candidate.
    pub fn inc_delegator(&mut self, delegator: u64, more: u128)
        requires
            old(self).wf(),
        ensures
            final(self).wf(),
            final(self).bond == old(self).bond,
            final(self).status == old(self).status,
            final(self).delegators.bound() == old(self).delegators.bound(),
            ({
                let s = old(self).delegators@;
                let i = index_of(s, delegator) as int;
                if holds_owner(s, delegator) {
                    &&& final(self).delegators@ == restaked(s, i, sat_add(s[i].amount, more))
                    &&& final(self).total_bond == sat_add(old(self).total_bond, more)
                } else {
                    &&& final(self).delegators@ == s
                    &&& final(self).total_bond == old(self).total_bond
                }
            }),
    {
        if let Ok(i) = self.delegators.linear_search(&Bond { owner: delegator, amount: 0 }) {
            let amount = self.delegators.get(i).unwrap().amount;
            self.delegators.set_amount(i, amount.saturating_add(more));
            self.total_bond = self.total_bond.saturating_add(more);
            self.delegators.sort_greatest_to_lowest();
        }
    }

    /// Takes `less` from the bond of `delegator` among the candidate's
    /// delegators, saturating at zero (the bond moves to its place by
    /// stake), and takes what that bond lost from the total backing; nothing
    /// changes when `delegator` does not back the candidate.
    pub fn dec_delegator(&mut self, delegator: u64, less: u128)
        requires
            old(self).wf(),
        ensures
            final(self).wf(),
            final(self).bond == old(self).bond,
            final(self).status == old(self).status,
            final(self).delegators.bound() == old(self).delegators.bound(),
            ({
                let s = old(self).delegators@;
                let i = index_of(s, delegator) as int;
                if holds_owner(s, delegator) {
                    &&& final(self).delegators@ == restaked(s, i, sat_sub(s[i].amount, less))
                    &&& final(self).total_bond == sat_sub(
                        old(self).total_bond,
                        (s[i].amount - sat_sub(s[i].amount, less)) as u128,
                    )
                } else {
                    &&& final(self).delegators@ == s
                    &&& final(self).total_bond == old(self).total_bond
                }
            }),
    {
        if let Ok(i) = self.delegators.linear_search(&Bond { owner: delegator, amount: 0 }) {
            let amount = self.delegators.get(i).unwrap().amount;
            let left = amount.saturating_sub(less);
            self.delegators.set_amount(i, left);
            self.total_bond = self.total_bond.saturating_sub(amount - left);
            self.delegators.sort_greatest_to_lowest();
        }
    }

    /// Marks the candidate as leaving from `round` on.
    pub fn leave_candidates(&mut self, round: RoundIndex)
        ensures
            *final(self) == (Candidate { status: CandidateStatus::Leaving(round), ..*old(self) }),
    {
        self.status = CandidateStatus::Leaving(round);
    }
}

/// Where a delegator stands.
#[derive(Clone, Copy, Debug, PartialEq, Eq, Structural)]
pub enum DelegatorStatus {
    /// Active with no scheduled exit.
    Active,
    /// Scheduled to revoke all its delegations from the given round on.
    Leaving(RoundIndex),
}

/// A delegator: the candidates it backs, each with the amount, and the total
/// it has delegated.
#[derive(Clone, Debug)]
pub struct Delegator {
    pub delegations: OrderedSet,
    pub total: u128,
    pub status: DelegatorStatus,
}

impl Delegator {
    pub open spec fn wf(&self) -> bool {
        self.delegations.wf()
    }

    /// A new active delegator backing `collator_candidate` with `amount`,
    /// whose delegation set holds at most `max_delegations`; `Err` when that
    /// bound is zero, so that not even this delegation fits.
    pub fn new(collator_candidate: u64, amount: u128, max_delegations: u32) -> (r: Result<
        Delegator,
        (),
    >)
        ensures
            max_delegations == 0 ==> r is Err,
            max_delegations > 0 ==> (r matches Ok(d) && {
                &&& d.wf()
                &&& d.delegations@ == seq![Bond { owner: collator_candidate, amount }]
                &&& d.delegations.bound() == max_delegations
                &&& d.total == amount
                &&& d.status == DelegatorStatus::Active
            }),
    {
        if max_delegations == 0 {
            return Err(());
        }
        let mut first: Vec<Bond> = Vec::new();
        first.push(Bond { owner: collator_candidate, amount });
        let delegations = OrderedSet::from(first, max_delegations);
        proof {
            let s = seq![Bond { owner: collator_candidate, amount }];
            assert(first@ == s);
            assert(s.drop_last() =~= Seq::<Bond>::empty());
            assert(collected(Seq::<Bond>::empty()) == Seq::<Bond>::empty());
            assert(collected(s) =~= s);
        }
        Ok(Delegator { delegations, total: amount, status: DelegatorStatus::Active })
    }

    /// Whether the delegator is active.
    pub fn is_active(&self) -> (r: bool)
        ensures
            r == (self.status == DelegatorStatus::Active),
    {
        match self.status {
            DelegatorStatus::Active => true,
            DelegatorStatus::Leaving(_) => false,
        }
    }

    pub fn is_leaving(&self) -> (r: bool)
        ensures
            r == (self.status is Leaving),
    {
        match self.status {
            DelegatorStatus::Active => false,
            DelegatorStatus::Leaving(_) => true,
        }
    }

    /// Adds a new delegation and its amount to the total (saturating).
    /// Returns false, and inserts nothing, when already delegating to the
    /// same candidate or when the delegation set is full.
    pub fn add_delegation(&mut self, stake: Bond) -> (r: bool)
        requires
            old(self).wf(),
        ensures
            final(self).wf(),
            final(self).status == old(self).status,
            final(self).delegations.bound() == old(self).delegations.bound(),
            r == (old(self).delegations@.len() < old(self).delegations.bound() && !holds_owner(
                old(self).delegations@,
                stake.owner,
            )),
            r ==> final(self).delegations@ == crate::collator_staking::set::inserted(
                old(self).delegations@,
                stake,
            ) && final(self).total == sat_add(old(self).total, stake.amount),
            !r ==> final(self).delegations@ == old(self).delegations@ && final(self).total == old(
                self,
            ).total,
    {
        let amt = stake.amount;
        match self.delegations.try_insert(stake) {
            Ok(true) => {
                self.total = self.total.saturating_add(amt);
                true
            },
            _ => false,
        }
    }

    /// Removes the delegation to `collator` and returns the delegator's
    /// remaining total; `None`, with nothing changed, when there is no such
    /// delegation.
    pub fn rm_delegation(&mut self, collator: &u64) -> (r: Option<u128>)
        requires
            old(self).wf(),
        ensures
            final(self).wf(),
            final(self).status == old(self).status,
            final(self).delegations.bound() == old(self).delegations.bound(),
            ({
                let s = old(self).delegations@;
                let i = index_of(s, *collator) as int;
                if holds_owner(s, *collator) {
                    &&& final(self).delegations@ == s.remove(i)
                    &&& final(self).total == sat_sub(old(self).total, s[i].amount)
                    &&& r == Some(final(self).total)
                } else {
                    &&& final(self).delegations@ == s
                    &&& final(self).total == old(self).total
                    &&& r is None
                }
            }),
    {
        let amt = self.delegations.remove(&Bond { owner: *collator, amount: 0 });
        if let Some(Bond { amount: balance, .. }) = amt {
            self.total = self.total.saturating_sub(balance);
            Some(self.total)
        } else {
            None
        }
    }

    /// Adds `more` to the delegation to `collator` (which moves to its place
    /// by stake) and to the total, saturating, and returns the new amount of
    /// that delegation; `None`, with nothing changed, when there is no such
    /// delegation.
    pub fn inc_delegation(&mut self, collator: u64, more: u128) -> (r: Option<u128>)
        requires
            old(self).wf(),
        ensures
            final(self).wf(),
            final(self).status == old(self).status,
            final(self).delegations.bound() == old(self).delegations.bound(),
            ({
                let s = old(self).delegations@;
                let i = index_of(s, collator) as int;
                if holds_owner(s, collator) {
                    &&& final(self).delegations@ == restaked(s, i, sat_add(s[i].amount, more))
                    &&& final(self).total == sat_add(old(self).total, more)
                    &&& r == Some(sat_add(s[i].amount, more))
                } else {
                    &&& final(self).delegations@ == s
                    &&& final(self).total == old(self).total
                    &&& r is None
                }
            }),
    {
        if let Ok(i) = self.delegations.linear_search(&Bond { owner: collator, amount: 0 }) {
            let amount = self.delegations.get(i).unwrap().amount;
            let new_amount = amount.saturating_add(more);
            self.delegations.set_amount(i, new_amount);
            self.total = self.total.saturating_add(more);
            self.delegations.sort_greatest_to_lowest();
            Some(new_amount)
        } else {
            None
        }
    }

    /// Takes `less` from the delegation to `collator` (which moves to its
    /// place by stake) and from the total and returns
    /// `Some(Some(amount left))`; `Some(None)` when `less` is no
    /// smaller than the delegation (which should then be removed whole) and
    /// `None` when there is no such delegation, with nothing changed in both.
    pub fn dec_delegation(&mut self, collator: u64, less: u128) -> (r: Option<Option<u128>>)
        requires
            old(self).wf(),
        ensures
            final(self).wf(),
            final(self).status == old(self).status,
            final(self).delegations.bound() == old(self).delegations.bound(),
            ({
                let s = old(self).delegations@;
                let i = index_of(s, collator) as int;
                if holds_owner(s, collator) && s[i].amount > less {
                    &&& final(self).delegations@ == restaked(s, i, (s[i].amount - less) as u128)
                    &&& final(self).total == sat_sub(old(self).total, less)
                    &&& r == Some(Some((s[i].amount - less) as u128))
                } else {
                    &&& final(self).delegations@ == s
                    &&& final(self).total == old(self).total
                    &&& r == (if holds_owner(s, collator) {
                        Some(None::<u128>)
                    } else {
                        None
                    })
                }
            }),
    {
        if let Ok(i) = self.delegations.linear_search(&Bond { owner: collator, amount: 0 }) {
            let amount = self.delegations.get(i).unwrap().amount;
            if amount > less {
                let new_amount = amount - less;
                self.delegations.set_amount(i, new_amount);
                self.total = self.total.saturating_sub(less);
                self.delegations.sort_greatest_to_lowest();
                Some(Some(new_amount))
            } else {
                Some(None)
            }
        } else {
            None
        }
    }
}

/// The sum of the amounts of the bonds of `s`.
pub open spec fn stake_sum(s: Seq<Bond>) -> int
    decreases s.len(),
{
    if s.len() == 0 {
        0
    } else {
        stake_sum(s.drop_last()) + s.last().amount
    }
}

/// The sum over two sequences put end to end is the sum of their sums.
pub proof fn lemma_stake_sum_concat(a: Seq<Bond>, b: Seq<Bond>)
    ensures
        stake_sum(a + b) == stake_sum(a) + stake_sum(b),
    decreases b.len(),
{
    if b.len() == 0 {
        assert(a + b =~= a);
    } else {
        lemma_stake_sum_concat(a, b.drop_last());
        assert((a + b).drop_last() =~= a + b.drop_last());
        assert((a + b).last() == b.last());
    }
}

/// A sum of amounts is never negative.
pub proof fn lemma_stake_sum_nonneg(s: Seq<Bond>)
    ensures
        stake_sum(s) >= 0,
    decreases s.len(),
{
    if s.len() > 0 {
        lemma_stake_sum_nonneg(s.drop_last());
    }
}

proof fn lemma_stake_sum_single(b: Bond)
    ensures
        stake_sum(seq![b]) == b.amount,
{
    assert(seq![b].drop_last() =~= Seq::<Bond>::empty());
    assert(stake_sum(Seq::<Bond>::empty()) == 0);
    assert(seq![b].last() == b);
}

/// Setting, inserting or removing a bond moves the sum by its amount.
pub proof fn lemma_stake_sum_edits(s: Seq<Bond>, i: int, b: Bond)
    requires
        0 <= i <= s.len(),
    ensures
        stake_sum(s.insert(i, b)) == stake_sum(s) + b.amount,
        i < s.len() ==> stake_sum(s.update(i, b)) == stake_sum(s) - s[i].amount + b.amount,
        i < s.len() ==> stake_sum(s.remove(i)) == stake_sum(s) - s[i].amount,
        i < s.len() ==> stake_sum(s) >= s[i].amount,
{
    let front = s.take(i);
    let back = s.skip(i);
    assert(s =~= front + back);
    lemma_stake_sum_concat(front, back);
    lemma_stake_sum_single(b);
    assert(s.insert(i, b) =~= front + (seq![b] + back));
    lemma_stake_sum_concat(seq![b], back);
    lemma_stake_sum_concat(front, seq![b] + back);
    if i < s.len() {
        let rest = s.skip(i + 1);
        assert(back =~= seq![s[i]] + rest);
        lemma_stake_sum_single(s[i]);
        lemma_stake_sum_concat(seq![s[i]], rest);
        assert(s.update(i, b) =~= front + (seq![b] + rest));
        lemma_stake_sum_concat(seq![b], rest);
        lemma_stake_sum_concat(front, seq![b] + rest);
        assert(s.remove(i) =~= front + rest);
        lemma_stake_sum_concat(front, rest);
        lemma_stake_sum_nonneg(front);
        lemma_stake_sum_nonneg(rest);
    }
}

/// Giving a bond of a descending sequence a new stake, and moving it to its
/// place, moves the sum from its old amount to the new one.
pub proof fn lemma_stake_sum_restaked(s: Seq<Bond>, i: int, amount: u128)
    requires
        descending(s),
        0 <= i < s.len(),
    ensures
        stake_sum(restaked(s, i, amount)) == stake_sum(s) - s[i].amount + amount,
        stake_sum(s) >= s[i].amount,
{
    let b = Bond { owner: s[i].owner, amount };
    lemma_stake_sum_edits(s, i, s[i]);
    crate::collator_staking::set::lemma_removed_descending(s, i);
    crate::collator_staking::set::lemma_position_of(s.remove(i), b);
    lemma_stake_sum_edits(s.remove(i), position_of(s.remove(i), b) as int, b);
}

/// A candidate's total backing is its own bond plus the stake of its
/// delegators.
pub open spec fn total_is_backing(c: Candidate) -> bool {
    c.total_bond == c.bond + stake_sum(c.delegators@)
}

/// Staking more keeps the total backing equal to the bond plus the
/// delegators' stake, as long as the total does not saturate.
pub proof fn law_stake_more_keeps_backing(c: Candidate, more: u128)
    requires
        total_is_backing(c),
        c.total_bond + more <= u128::MAX,
    ensures
        total_is_backing(
            Candidate {
                bond: sat_add(c.bond, more),
                total_bond: sat_add(c.total_bond, more),
                ..c
            },
        ),
{
    lemma_stake_sum_nonneg(c.delegators@);
}

/// Staking less keeps the total backing equal to the bond plus the
/// delegators' stake.
pub proof fn law_stake_less_keeps_backing(c: Candidate, less: u128)
    requires
        total_is_backing(c),
        c.bond > less,
    ensures
        total_is_backing(
            Candidate {
                bond: (c.bond - less) as u128,
                total_bond: sat_sub(c.total_bond, less),
                ..c
            },
        ),
{
    lemma_stake_sum_nonneg(c.delegators@);
}

/// Raising a delegator's bond raises the total backing alike, as long as
/// the total does not saturate.
pub proof fn law_inc_delegator_keeps_backing(
    bond: u128,
    total_bond: u128,
    delegators: Seq<Bond>,
    delegator: u64,
    more: u128,
)
    requires
        descending(delegators),
        total_bond == bond + stake_sum(delegators),
        holds_owner(delegators, delegator),
        total_bond + more <= u128::MAX,
    ensures
        ({
            let i = index_of(delegators, delegator) as int;
            sat_add(total_bond, more) == bond + stake_sum(
                restaked(delegators, i, sat_add(delegators[i].amount, more)),
            )
        }),
{
    crate::collator_staking::set::lemma_index_of(delegators, delegator);
    let i = index_of(delegators, delegator) as int;
    lemma_stake_sum_restaked(delegators, i, sat_add(delegators[i].amount, more));
}

/// Lowering a delegator's bond lowers the total backing by what the bond
/// lost.
pub proof fn law_dec_delegator_keeps_backing(
    bond: u128,
    total_bond: u128,
    delegators: Seq<Bond>,
    delegator: u64,
    less: u128,
)
    requires
        descending(delegators),
        total_bond == bond + stake_sum(delegators),
        holds_owner(delegators, delegator),
    ensures
        ({
            let i = index_of(delegators, delegator) as int;
            let a = delegators[i].amount;
            sat_sub(total_bond, (a - sat_sub(a, less)) as u128) == bond + stake_sum(
                restaked(delegators, i, sat_sub(delegators[i].amount, less)),
            )
        }),
{
    crate::collator_staking::set::lemma_index_of(delegators, delegator);
    let i = index_of(delegators, delegator) as int;
    lemma_stake_sum_restaked(delegators, i, sat_sub(delegators[i].amount, less));
}

/// A delegator's total is the sum of its delegations.
pub open spec fn total_is_delegated(d: Delegator) -> bool {
    d.total == stake_sum(d.delegations@)
}

/// A new delegator's total is its one delegation.
pub proof fn law_new_delegator_total(collator: u64, amount: u128)
    ensures
        amount == stake_sum(seq![Bond { owner: collator, amount }]),
{
    lemma_stake_sum_single(Bond { owner: collator, amount });
}

/// Recording a delegator on a candidate and adding its amount to the total
/// backing keeps the total equal to the bond plus the delegators' stake, as
/// long as the total does not saturate.
pub proof fn law_recorded_delegation_keeps_backing(
    bond: u128,
    total_bond: u128,
    delegators: Seq<Bond>,
    stake: Bond,
)
    requires
        descending(delegators),
        !holds_owner(delegators, stake.owner),
        total_bond == bond + stake_sum(delegators),
        total_bond + stake.amount <= u128::MAX,
    ensures
        sat_add(total_bond, stake.amount) == bond + stake_sum(inserted(delegators, stake)),
{
    crate::collator_staking::set::lemma_position_of(delegators, stake);
    lemma_stake_sum_edits(delegators, position_of(delegators, stake) as int, stake);
}

/// Adding a delegation adds its amount to the total, as long as the total
/// does not saturate.
pub proof fn law_add_delegation_keeps_total(s: Seq<Bond>, total: u128, stake: Bond)
    requires
        descending(s),
        !holds_owner(s, stake.owner),
        total == stake_sum(s),
        total + stake.amount <= u128::MAX,
    ensures
        sat_add(total, stake.amount) == stake_sum(inserted(s, stake)),
{
    crate::collator_staking::set::lemma_position_of(s, stake);
    lemma_stake_sum_edits(s, position_of(s, stake) as int, stake);
}

/// Removing a delegation takes its amount off the total.
pub proof fn law_rm_delegation_keeps_total(s: Seq<Bond>, total: u128, collator: u64)
    requires
        holds_owner(s, collator),
        total == stake_sum(s),
    ensures
        ({
            let i = index_of(s, collator) as int;
            sat_sub(total, s[i].amount) == stake_sum(s.remove(i))
        }),
{
    crate::collator_staking::set::lemma_index_of(s, collator);
    let i = index_of(s, collator) as int;
    lemma_stake_sum_edits(s, i, s[i]);
}

/// Raising a delegation raises the total alike, as long as the total does
/// not saturate.
pub proof fn law_inc_delegation_keeps_total(s: Seq<Bond>, total: u128, collator: u64, more: u128)
    requires
        descending(s),
        holds_owner(s, collator),
        total == stake_sum(s),
        total + more <= u128::MAX,
    ensures
        ({
            let i = index_of(s, collator) as int;
            sat_add(total, more) == stake_sum(
                restaked(s, i, sat_add(s[i].amount, more)),
            )
        }),
{
    crate::collator_staking::set::lemma_index_of(s, collator);
    let i = index_of(s, collator) as int;
    lemma_stake_sum_restaked(s, i, sat_add(s[i].amount, more));
}

/// Lowering a delegation, which keeps some of it, lowers the total alike.
pub proof fn law_dec_delegation_keeps_total(s: Seq<Bond>, total: u128, collator: u64, less: u128)
    requires
        descending(s),
        holds_owner(s, collator),
        total == stake_sum(s),
        s[index_of(s, collator) as int].amount > less,
    ensures
        ({
            let i = index_of(s, collator) as int;
            sat_sub(total, less) == stake_sum(
                restaked(s, i, (s[i].amount - less) as u128),
            )
        }),
{
    crate::collator_staking::set::lemma_index_of(s, collator);
    let i = index_of(s, collator) as int;
    lemma_stake_sum_restaked(s, i, (s[i].amount - less) as u128);
}

/// Leaving and then reverting leaves an active candidate as it was.
pub proof fn law_revert_undoes_leave(c: Candidate, round: RoundIndex)
    requires
        c.status == CandidateStatus::Active,
    ensures
        (Candidate {
            status: CandidateStatus::Active,
            ..(Candidate { status: CandidateStatus::Leaving(round), ..c })
        }) == c,
{
}

/// The current round: its index, its first block and its length in blocks.
#[derive(Clone, Copy, Debug, PartialEq, Eq, Structural)]
pub struct RoundInfo {
    /// Current round index.
    pub current: RoundIndex,
    /// The first block of the current round.
    pub first: u32,
    /// The length of the current round in blocks.
    pub length: u32,
}

/// The round should end at block `now`: `round.length` or more blocks went
/// by since its first block (none when `now` is before it).
pub open spec fn round_due(round: RoundInfo, now: u32) -> bool {
    (if now >= round.first {
        now - round.first
    } else {
        0
    }) >= round.length
}

/// A round is due at every block that is at least its length past its
/// first block, and at no block before that: once due, it stays due at the
/// next block. So a round shortened below the blocks already gone ends at
/// the next block.
pub proof fn law_round_due_once_its_length_passed(round: RoundInfo, now: u32)
    ensures
        now >= round.first && now - round.first >= round.length ==> round_due(round, now),
        now >= round.first && now - round.first < round.length ==> !round_due(round, now),
        now < round.first ==> (round_due(round, now) <==> round.length == 0),
        round_due(round, now) && now < u32::MAX ==> round_due(round, (now + 1) as u32),
{
}

/// A round that starts at block `now` is not due at that block, unless its
/// length is zero.
pub proof fn law_new_round_not_due(round: RoundInfo, now: u32)
    ensures
        round_due(RoundInfo { first: now, ..round }, now) == (round.length == 0),
{
}

impl RoundInfo {
    pub fn new(current: RoundIndex, first: u32, length: u32) -> (r: RoundInfo)
        ensures
            r == (RoundInfo { current, first, length }),
    {
        RoundInfo { current, first, length }
    }

    /// Whether the round should be updated: `self.length` or more blocks
    /// were produced after `self.first` (a `now` before `first` counts as
    /// no block).
    pub fn should_update(&self, now: u32) -> (r: bool)
        ensures
            r == round_due(*self, now),
    {
        let l = now.saturating_sub(self.first);
        l >= self.length
    }

    /// Starts a new round at block `now`.
    pub fn update(&mut self, now: u32)
        ensures
            *final(self) == (RoundInfo {
                current: if old(self).current == u32::MAX {
                    u32::MAX
                } else {
                    (old(self).current + 1) as u32
                },
                first: now,
                length: old(self).length,
            }),
    {
        self.current = self.current.saturating_add(1u32);
        self.first = now;
    }
}

impl Default for RoundInfo {
    /// Round 0, starting at block 0, thirty blocks long.
    fn default() -> (r: RoundInfo)
        ensures
            r == (RoundInfo { current: 0, first: 0, length: 30 }),
    {
        RoundInfo::new(0u32, 0u32, 30u32)
    }
}

/// The number of delegations a delegator has made within the last session
/// in which it delegated.
#[derive(Clone, Copy, Debug, PartialEq, Eq, Structural)]
pub struct DelegationCounter {
    /// The index of the last delegation.
    pub round: u32,
    /// The number of delegations made within round.
    pub counter: u32,
}

impl Default for DelegationCounter {
    fn default() -> (r: DelegationCounter)
        ensures
            r == (DelegationCounter { round: 0, counter: 0 }),
    {
        DelegationCounter { round: 0, counter: 0 }
    }
}

/// The total stake of the pallet: both collators' and delegators' staked
/// funds.
#[derive(Clone, Copy, Debug, PartialEq, Eq, Structural)]
pub struct TotalStake {
    pub collators: u128,
    pub delegators: u128,
}

impl Default for TotalStake {
    fn default() -> (r: TotalStake)
        ensures
            r == (TotalStake { collators: 0, delegators: 0 }),
    {
        TotalStake { collators: 0, delegators: 0 }
    }
}

} // verus!
