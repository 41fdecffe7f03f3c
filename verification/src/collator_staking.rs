//! Collator selection by staking: candidates stake to be selected as
//! collators, delegators back candidates, and the best staked candidates
//! are handed to the session as the next collator set.

pub mod bond;
pub mod seats;
pub mod set;
pub mod types;

use std::collections::BTreeMap;
use vstd::prelude::*;

use crate::collator_staking::bond::Bond;
use crate::collator_staking::set::{
    descending, holds_owner, index_of, inserted, position_of, ranks_above, restaked, OrderedSet,
};
use crate::collator_staking::types::{
    law_recorded_delegation_keeps_backing, round_due, sat_add, sat_sub, total_is_backing,
    Candidate, CandidateStatus, Delegator, DelegatorStatus, RoundIndex, RoundInfo, TotalStake,
};
use crate::dispatch::{ensure_root, ensure_signed, DispatchError, Origin};
use crate::per_thing::{parts_of, percent_of, percent_parts};
use crate::scale::{decode_u64, le_bytes};

verus! {

/// The constants the pallet is configured with.
#[derive(Clone, Copy, Debug, PartialEq, Eq, Structural)]
pub struct Config {
    /// The most fixed collators; a longer list is accepted all the same.
    pub max_invulnerables: u32,
    /// The fewest collators that may be selected per round.
    pub min_selected_candidates: u32,
    /// The shortest round, in blocks.
    pub min_length_per_round: u32,
    /// The most delegations within one round.
    pub max_delegations_per_round: u32,
    /// The most delegators of one candidate, and the most delegations of one
    /// delegator.
    pub max_delegators_of_candidate: u32,
    /// The most candidates a delegator can delegate to.
    pub max_candidates_per_delegator: u32,
    /// The most candidates kept in the top candidates set.
    pub max_top_candidates: u32,
    /// A further delegation must be more than this.
    pub minimum_delegation: u128,
    /// A first delegation must be more than this.
    pub minimum_delegator_bond: u128,
    /// The least stake of a top candidate that is selected as a collator.
    pub minimum_collator_stake: u128,
}

/// What the session gives for an account proposed as a fixed collator: no
/// author key, or a key that is registered or not.
#[derive(Clone, Copy, Debug, PartialEq, Eq, Structural)]
pub enum AuthorKey {
    Missing,
    Registered,
    Unregistered,
}

#[derive(Clone, Copy, Debug, PartialEq, Eq, Structural)]
pub enum Error {
    /// The account has no author id.
    NoAssociatedAuthorId,
    /// The author is not registered.
    AuthorNotRegistered,
    /// The collator candidate is not registered.
    CandidateNotRegistered,
    /// The account is already a candidate.
    AlreadyCandidate,
    /// The account is already a fixed collator.
    AlreadyInvulnerable,
    /// Below the fewest selected collators.
    BelowMinSelectedCandidates,
    /// The number of selected collators is already that.
    NoSettingSameCollatorNums,
    /// Below the shortest round.
    BelowMinlength,
    /// The round length is already that.
    NotSameRoundLength,
    /// The round would be shorter than the number of collators.
    RoundLengthLessThanCollatorNums,
    /// The account is already a candidate.
    CandidateExists,
    /// The account is already a delegator.
    DelegatorExists,
    /// The stake is below the candidacy bond.
    NotEnoughStakingForCandidate,
    /// Not enough free balance to reserve.
    InsufficientBalance,
    /// The candidate is not in the candidate pool.
    CandidateNotExist,
    /// Already delegating to that candidate.
    AlreadyDelegate,
    /// The delegation is too small.
    TooLowDelegation,
    /// The delegator is not active.
    InactiveDelegator,
    /// The delegator has too many delegations.
    TooManydelegations,
    /// The first delegation is too small.
    TooLowDelegatorBond,
    /// The delegator already backs the candidate.
    DelegatorExistOfCandidate,
    /// The candidate is leaving.
    InactiveCandidate,
}

#[derive(Clone, Debug, PartialEq, Eq)]
pub enum Event {
    /// The new fixed collators.
    NewInvulnerables(Vec<u64>),
    /// The new bond to become a candidate.
    NewCandidacyBond(u128),
    /// The round length was set: round index, first block, old and new length.
    RoundLengthSet(RoundIndex, u32, u32, u32),
    /// The number of collators was set: old and new.
    NewCollatorNumsSet(u32, u32),
    /// A new candidate and its stake.
    NewCandidate(u64, u128),
    /// The number of top candidates.
    TotalCandidate(u32),
    /// The total staked in the pallet.
    TotalStaking(u128),
    /// A new delegation: delegator, candidate, amount.
    NewDelegation(u64, u64, u128),
    /// A new round: its first block and its index.
    NewRound(u32, RoundIndex),
    /// A candidate entered the top candidates.
    EnteredTopCandidates(u64),
}

/// What a call asks of the world around the pallet, in order: to reserve
/// an amount of an account, to deposit an amount into an existing account,
/// or to emit an event.
#[derive(Clone, Debug, PartialEq, Eq)]
pub enum Effect {
    Reserve(u64, u128),
    DepositIntoExisting(u64, u128),
    Emit(Event),
}

/// The id of the pallet, from which its account is made.
pub const PALLET_ID: [u8; 8] = [67, 111, 108, 108, 83, 116, 97, 107];

/// The share, in percent, of a staked amount that authoring a block pays.
pub const AUTHOR_REWARD_PERCENT: u64 = 20;

/// The pallet's storage, with the configuration it runs under.
pub struct Pallet {
    pub config: Config,
    /// The fixed collators, which cannot be kicked out.
    pub invulnerables: Vec<u64>,
    /// The least stake to become a candidate.
    pub candidacy_bond: u128,
    /// The least stake to become a collator (kept, never read).
    pub collator_bond: u128,
    /// The candidates by account.
    pub candidate_pool: BTreeMap<u64, Candidate>,
    /// The top candidates.
    pub top_candidates: OrderedSet,
    /// The delegators by account.
    pub delegators: BTreeMap<u64, Delegator>,
    /// The current round.
    pub round: RoundInfo,
    /// The total staked in the pallet.
    pub total_staking: u128,
    /// The stake of the selected collators and of their delegators.
    pub total_collator_stake: TotalStake,
    /// The number of candidates selected every round.
    pub collator_nums: u32,
}

/// The events a call emits when `candidate` enters the top candidates.
pub open spec fn entered_events(entered: bool, candidate: u64) -> Seq<Effect> {
    if entered {
        seq![Effect::Emit(Event::EnteredTopCandidates(candidate))]
    } else {
        Seq::empty()
    }
}

/// The stake of the top candidate at `index`, as its own bond and what its
/// delegators add, when it is in the pool.
pub open spec fn pool_stake_at(top: Seq<Bond>, pool: Map<u64, Candidate>, index: int) -> Option<
    (u128, u128),
> {
    if 0 <= index < top.len() && pool.contains_key(top[index].owner) {
        let c = pool[top[index].owner];
        Some((c.bond, (c.total_bond - c.bond) as u128))
    } else {
        None
    }
}

/// `t` with the `sub` amounts taken off and the `add` amounts put on,
/// saturating.
pub open spec fn moved_total(
    t: TotalStake,
    add_collators: u128,
    add_delegators: u128,
    sub_collators: u128,
    sub_delegators: u128,
) -> TotalStake {
    TotalStake {
        collators: sat_add(sat_sub(t.collators, sub_collators), add_collators),
        delegators: sat_add(sat_sub(t.delegators, sub_delegators), add_delegators),
    }
}

/// What a change of a candidate's stake makes of the top candidates and of
/// the collators' total stake.
pub struct TopUpdate {
    pub top: Seq<Bond>,
    pub total: TotalStake,
    pub entered: bool,
}

/// What the collators' total becomes when `candidate` moves from its old
/// to its new stake and the top candidates become `new_top`; `was` and
/// `is` tell whether it held a collator seat (one of the first
/// `collator_nums` top candidates) before and after. Staying on a seat
/// moves the total from the old to the new stake. Leaving the seats takes
/// the old stake off and puts on that of the candidate now on the last
/// seat, at index `min(collator_nums, len) - 1`. Taking a seat puts the new
/// stake on and takes off that of the candidate at index
/// `min(collator_nums, len - 1)`, the one pushed off the seats.
pub open spec fn collators_moved(
    new_top: Seq<Bond>,
    pool: Map<u64, Candidate>,
    total: TotalStake,
    collator_nums: u32,
    was: bool,
    is: bool,
    old_self: u128,
    old_delegations: u128,
    new_self: u128,
    new_delegations: u128,
) -> TotalStake {
    let n = collator_nums as int;
    let len = new_top.len() as int;
    if was && is {
        moved_total(total, new_self, new_delegations, old_self, old_delegations)
    } else if was {
        let shown = if n < len {
            n
        } else {
            len
        };
        let index = if shown > 0 {
            shown - 1
        } else {
            0
        };
        let added = match pool_stake_at(new_top, pool, index) {
            Some(s) => s,
            None => (new_self, new_delegations),
        };
        moved_total(total, added.0, added.1, old_self, old_delegations)
    } else if is {
        let last = if len > 0 {
            len - 1
        } else {
            0
        };
        let index = if n < last {
            n
        } else {
            last
        };
        let dropped = match pool_stake_at(new_top, pool, index) {
            Some(s) => s,
            None => (0u128, 0u128),
        };
        moved_total(total, new_self, new_delegations, dropped.0, dropped.1)
    } else {
        total
    }
}

/// The change that `update_top_candidates` makes. The top candidates
/// descend by stake. A candidate already among them takes its new stake
/// and moves to its place. A candidate that is not among them enters at
/// its place when that place is within the bound: when the set is full it
/// must rank above the last one, which leaves. Otherwise nothing changes.
/// The collators' total then follows [`collators_moved`].
pub open spec fn top_update(
    top: Seq<Bond>,
    bound: nat,
    collator_nums: u32,
    pool: Map<u64, Candidate>,
    total: TotalStake,
    candidate: u64,
    old_self: u128,
    old_delegations: u128,
    new_self: u128,
    new_delegations: u128,
) -> TopUpdate {
    let amount = sat_add(new_self, new_delegations);
    let n = collator_nums as int;
    let stake = Bond { owner: candidate, amount };
    if holds_owner(top, candidate) {
        let i = index_of(top, candidate) as int;
        let new_top = restaked(top, i, amount);
        let j = index_of(new_top, candidate) as int;
        TopUpdate {
            top: new_top,
            total: collators_moved(
                new_top,
                pool,
                total,
                collator_nums,
                i < n,
                j < n,
                old_self,
                old_delegations,
                new_self,
                new_delegations,
            ),
            entered: false,
        }
    } else if bound > 0 && position_of(top, stake) < bound {
        let p = position_of(top, stake) as int;
        let new_top = if top.len() >= bound {
            top.drop_last().insert(p, stake)
        } else {
            top.insert(p, stake)
        };
        TopUpdate {
            top: new_top,
            total: collators_moved(
                new_top,
                pool,
                total,
                collator_nums,
                false,
                p < n,
                old_self,
                old_delegations,
                new_self,
                new_delegations,
            ),
            entered: true,
        }
    } else {
        TopUpdate { top, total, entered: false }
    }
}

/// The error of the first account whose author key is missing or not
/// registered, if there is one.
pub open spec fn keys_check(keys: Seq<AuthorKey>) -> Option<Error>
    decreases keys.len(),
{
    if keys.len() == 0 {
        None
    } else {
        match keys[0] {
            AuthorKey::Missing => Some(Error::NoAssociatedAuthorId),
            AuthorKey::Unregistered => Some(Error::CandidateNotRegistered),
            AuthorKey::Registered => keys_check(keys.drop_first()),
        }
    }
}

/// The keys pass exactly when every one of them is registered.
proof fn lemma_keys_check_none(keys: Seq<AuthorKey>)
    ensures
        keys_check(keys) is None <==> forall|i: int|
            0 <= i < keys.len() ==> #[trigger] keys[i] == AuthorKey::Registered,
    decreases keys.len(),
{
    if keys.len() > 0 {
        let t = keys.drop_first();
        lemma_keys_check_none(t);
        if keys[0] == AuthorKey::Registered {
            if forall|i: int| 0 <= i < t.len() ==> #[trigger] t[i] == AuthorKey::Registered {
                assert forall|i: int| 0 <= i < keys.len() implies #[trigger] keys[i]
                    == AuthorKey::Registered by {
                    if i > 0 {
                        assert(keys[i] == t[i - 1]);
                    }
                }
            }
            if forall|i: int| 0 <= i < keys.len() ==> #[trigger] keys[i] == AuthorKey::Registered {
                assert forall|i: int| 0 <= i < t.len() implies #[trigger] t[i]
                    == AuthorKey::Registered by {
                    assert(t[i] == keys[i + 1]);
                }
            }
        }
    }
}

/// Registered keys ahead of index `i` pass, and the check goes on from `i`.
proof fn lemma_keys_check_from(keys: Seq<AuthorKey>, i: int)
    requires
        0 <= i <= keys.len(),
        forall|j: int| 0 <= j < i ==> #[trigger] keys[j] == AuthorKey::Registered,
    ensures
        keys_check(keys) == keys_check(keys.subrange(i, keys.len() as int)),
    decreases i,
{
    if i == 0 {
        assert(keys.subrange(0, keys.len() as int) =~= keys);
    } else {
        let t = keys.drop_first();
        assert(keys[0] == AuthorKey::Registered);
        assert forall|j: int| 0 <= j < i - 1 implies #[trigger] t[j] == AuthorKey::Registered by {
            assert(t[j] == keys[j + 1]);
        }
        lemma_keys_check_from(t, i - 1);
        assert(t.subrange(i - 1, t.len() as int) =~= keys.subrange(i, keys.len() as int));
    }
}

/// The fixed collators are accepted exactly when every proposed account has
/// a registered author key; otherwise the first account whose key is not
/// registered gives the error: `NoAssociatedAuthorId` for a missing key,
/// `CandidateNotRegistered` for an unregistered one.
pub proof fn law_keys_check_finds_the_first_unregistered(keys: Seq<AuthorKey>)
    ensures
        keys_check(keys) is None <==> forall|i: int|
            0 <= i < keys.len() ==> #[trigger] keys[i] == AuthorKey::Registered,
        forall|i: int|
            0 <= i < keys.len() && #[trigger] keys[i] != AuthorKey::Registered && (forall|j: int|
                0 <= j < i ==> keys[j] == AuthorKey::Registered) ==> keys_check(keys) == Some(
                if keys[i] == AuthorKey::Missing {
                    Error::NoAssociatedAuthorId
                } else {
                    Error::CandidateNotRegistered
                },
            ),
{
    lemma_keys_check_none(keys);
    assert forall|i: int|
        0 <= i < keys.len() && #[trigger] keys[i] != AuthorKey::Registered && (forall|j: int|
            0 <= j < i ==> keys[j] == AuthorKey::Registered) implies keys_check(keys) == Some(
        if keys[i] == AuthorKey::Missing {
            Error::NoAssociatedAuthorId
        } else {
            Error::CandidateNotRegistered
        },
    ) by {
        lemma_keys_check_from(keys, i);
        let s = keys.subrange(i, keys.len() as int);
        assert(s[0] == keys[i]);
    }
}

/// A fixed collator cannot apply to be a candidate, wherever it stands
/// among the fixed collators; and an application is accepted only from an
/// account that is neither a candidate, a delegator nor a fixed collator,
/// staking at least the candidacy bond and able to reserve it.
pub proof fn law_fixed_collators_cannot_apply(p: Pallet, who: u64, stake: u128, can_reserve: bool)
    ensures
        !p.candidate_pool@.contains_key(who) && !p.delegators@.contains_key(who)
            && p.invulnerables@.contains(who) ==> apply_candidate_check(p, who, stake, can_reserve)
            == Some(Error::AlreadyInvulnerable),
        apply_candidate_check(p, who, stake, can_reserve) is None <==> (!p.candidate_pool@.contains_key(
            who,
        ) && !p.delegators@.contains_key(who) && !p.invulnerables@.contains(who) && stake
            >= p.candidacy_bond && can_reserve),
{
}

/// Why `who` may not apply to be a candidate with `stake`, if it may not;
/// `can_reserve` tells whether the account can reserve the stake.
pub open spec fn apply_candidate_check(p: Pallet, who: u64, stake: u128, can_reserve: bool) -> Option<
    Error,
> {
    if p.candidate_pool@.contains_key(who) {
        Some(Error::CandidateExists)
    } else if p.delegators@.contains_key(who) {
        Some(Error::DelegatorExists)
    } else if p.invulnerables@.contains(who) {
        Some(Error::AlreadyInvulnerable)
    } else if stake < p.candidacy_bond {
        Some(Error::NotEnoughStakingForCandidate)
    } else if !can_reserve {
        Some(Error::InsufficientBalance)
    } else {
        None
    }
}

/// Why `who` may not delegate `amount` to `candidate`, if it may not.
pub open spec fn apply_delegate_check(
    p: Pallet,
    who: u64,
    candidate: u64,
    amount: u128,
    can_reserve: bool,
) -> Option<Error> {
    if !can_reserve {
        Some(Error::InsufficientBalance)
    } else {
        let delegator_error = if p.delegators@.contains_key(who) {
            let d = p.delegators@[who];
            if d.status != DelegatorStatus::Active {
                Some(Error::InactiveDelegator)
            } else if amount <= p.config.minimum_delegation {
                Some(Error::TooLowDelegation)
            } else if d.delegations@.len() >= p.config.max_candidates_per_delegator {
                Some(Error::TooManydelegations)
            } else if d.delegations@.len() >= d.delegations.bound() || holds_owner(
                d.delegations@,
                candidate,
            ) {
                Some(Error::AlreadyDelegate)
            } else {
                None
            }
        } else if amount <= p.config.minimum_delegator_bond {
            Some(Error::TooLowDelegatorBond)
        } else if p.candidate_pool@.contains_key(who) {
            Some(Error::CandidateExists)
        } else if p.config.max_delegators_of_candidate == 0 {
            Some(Error::TooManydelegations)
        } else {
            None
        };
        if delegator_error is Some {
            delegator_error
        } else if !p.candidate_pool@.contains_key(candidate) {
            Some(Error::CandidateNotExist)
        } else {
            let c = p.candidate_pool@[candidate];
            if c.status is Leaving {
                Some(Error::InactiveCandidate)
            } else if c.delegators@.len() < c.delegators.bound() && holds_owner(
                c.delegators@,
                who,
            ) {
                Some(Error::DelegatorExistOfCandidate)
            } else {
                None
            }
        }
    }
}

/// A further delegation is held to the least delegation, a first one to the
/// least delegator bond: the check of an account that already delegates
/// does not depend on the least delegator bond, nor that of a new
/// delegator on the least delegation.
pub proof fn law_delegation_minimums(
    p: Pallet,
    who: u64,
    candidate: u64,
    amount: u128,
    can_reserve: bool,
    minimum: u128,
)
    ensures
        p.delegators@.contains_key(who) ==> apply_delegate_check(
            p,
            who,
            candidate,
            amount,
            can_reserve,
        ) == apply_delegate_check(
            Pallet { config: Config { minimum_delegator_bond: minimum, ..p.config }, ..p },
            who,
            candidate,
            amount,
            can_reserve,
        ),
        !p.delegators@.contains_key(who) ==> apply_delegate_check(
            p,
            who,
            candidate,
            amount,
            can_reserve,
        ) == apply_delegate_check(
            Pallet { config: Config { minimum_delegation: minimum, ..p.config }, ..p },
            who,
            candidate,
            amount,
            can_reserve,
        ),
{
}

/// An active delegator with room for one more delegation, which does not
/// yet back an active candidate that does not yet record it, is refused
/// with `TooLowDelegation` exactly when the amount is no more than the
/// least delegation, and accepted otherwise.
pub proof fn law_further_delegation_too_low(p: Pallet, who: u64, candidate: u64, amount: u128)
    requires
        p.delegators@.contains_key(who),
        p.delegators@[who].status == DelegatorStatus::Active,
        p.delegators@[who].delegations@.len() < p.config.max_candidates_per_delegator,
        p.delegators@[who].delegations@.len() < p.delegators@[who].delegations.bound(),
        !holds_owner(p.delegators@[who].delegations@, candidate),
        p.candidate_pool@.contains_key(candidate),
        p.candidate_pool@[candidate].status == CandidateStatus::Active,
        !holds_owner(p.candidate_pool@[candidate].delegators@, who),
    ensures
        apply_delegate_check(p, who, candidate, amount, true) == (if amount
            <= p.config.minimum_delegation {
            Some(Error::TooLowDelegation)
        } else {
            None
        }),
{
}

/// The owners of the bonds of `s` that stake at least `min_stake`, in order.
pub open spec fn owners_staking_at_least(s: Seq<Bond>, min_stake: u128) -> Seq<u64>
    decreases s.len(),
{
    if s.len() == 0 {
        Seq::empty()
    } else {
        let r = owners_staking_at_least(s.drop_last(), min_stake);
        if s.last().amount >= min_stake {
            r.push(s.last().owner)
        } else {
            r
        }
    }
}

/// The collators chosen among the top candidates, which descend by stake:
/// of the first `collator_nums` of them, the highest staked (see
/// [`law_seats_outrank_the_rest`]), those staking at least the least
/// collator stake.
pub open spec fn selected(top: Seq<Bond>, collator_nums: u32, min_stake: u128) -> Seq<u64> {
    let n = if collator_nums < top.len() {
        collator_nums as int
    } else {
        top.len() as int
    };
    owners_staking_at_least(top.take(n), min_stake)
}

/// The reward for staking `amount` of a candidate's total backing `total`
/// when the candidate authors a block: a fifth of the whole-number quotient
/// `amount / total`, as `Perquintill::from_percent(20)` takes it.
pub open spec fn author_reward(amount: u128, total: u128) -> u128 {
    parts_of(percent_parts(20), (amount / total) as u128) as u128
}

/// The deposits that reward the delegators of `s` out of the total backing
/// `total`, in the order of `s`.
pub open spec fn delegator_rewards(s: Seq<Bond>, total: u128) -> Seq<Effect> {
    s.map_values(|b: Bond| Effect::DepositIntoExisting(b.owner, author_reward(b.amount, total)))
}

/// The prefix of the pallet's account: the type id of pallet accounts.
pub open spec fn pallet_account_bytes() -> Seq<u8> {
    seq![109u8, 111u8, 100u8, 108u8] + seq![67u8, 111u8, 108u8, 108u8]
}

/// The owners chosen from `s` are no more than its bonds, and each is the
/// owner of one of its bonds that stakes at least `min_stake`.
pub proof fn lemma_owners_staking_at_least(s: Seq<Bond>, min_stake: u128)
    ensures
        owners_staking_at_least(s, min_stake).len() <= s.len(),
        forall|j: int|
            0 <= j < owners_staking_at_least(s, min_stake).len() ==> exists|i: int|
                0 <= i < s.len() && s[i].owner == #[trigger] owners_staking_at_least(
                    s,
                    min_stake,
                )[j] && s[i].amount >= min_stake,
    decreases s.len(),
{
    if s.len() > 0 {
        let t = s.drop_last();
        lemma_owners_staking_at_least(t, min_stake);
        let r = owners_staking_at_least(t, min_stake);
        let q = owners_staking_at_least(s, min_stake);
        assert forall|j: int| 0 <= j < q.len() implies exists|i: int|
            0 <= i < s.len() && s[i].owner == #[trigger] q[j] && s[i].amount >= min_stake by {
            if j < r.len() {
                assert(q[j] == r[j]);
                let i = choose|i: int|
                    0 <= i < t.len() && t[i].owner == #[trigger] r[j] && t[i].amount >= min_stake;
                assert(s[i] == t[i]);
            } else {
                assert(s[s.len() - 1] == s.last());
            }
        }
    }
}

/// Every bond of `s` staking at least `min_stake` has its owner chosen, and
/// with no least stake every bond has.
pub proof fn lemma_owners_staking_at_least_keeps_all(s: Seq<Bond>, min_stake: u128)
    ensures
        forall|i: int|
            0 <= i < s.len() && #[trigger] s[i].amount >= min_stake ==> owners_staking_at_least(
                s,
                min_stake,
            ).contains(s[i].owner),
        min_stake == 0 ==> owners_staking_at_least(s, min_stake).len() == s.len(),
    decreases s.len(),
{
    if s.len() > 0 {
        let t = s.drop_last();
        lemma_owners_staking_at_least_keeps_all(t, min_stake);
        let r = owners_staking_at_least(t, min_stake);
        let q = owners_staking_at_least(s, min_stake);
        assert forall|i: int| 0 <= i < s.len() && #[trigger] s[i].amount >= min_stake implies q.contains(
            s[i].owner,
        ) by {
            if i < s.len() - 1 {
                assert(s[i] == t[i]);
                assert(t[i].amount >= min_stake);
                let k = choose|k: int| 0 <= k < r.len() && r[k] == t[i].owner;
                if s.last().amount >= min_stake {
                    assert(q[k] == r[k]);
                }
            } else {
                assert(s[i] == s.last());
                assert(q[q.len() - 1] == s.last().owner);
            }
        }
    }
}

/// Every one of the first `collator_nums` top candidates (or all of them,
/// when there are fewer) that stakes at least the least collator stake is
/// selected; with no least stake, as many are selected as there are seats
/// taken.
pub proof fn law_selected_keeps_every_seat(top: Seq<Bond>, collator_nums: u32, min_stake: u128)
    ensures
        forall|i: int|
            0 <= i < collator_nums && i < top.len() && #[trigger] top[i].amount >= min_stake
                ==> selected(top, collator_nums, min_stake).contains(top[i].owner),
        selected(top, collator_nums, 0).len() == (if collator_nums < top.len() {
            collator_nums as int
        } else {
            top.len() as int
        }),
{
    let n = if collator_nums < top.len() {
        collator_nums as int
    } else {
        top.len() as int
    };
    let t = top.take(n);
    lemma_owners_staking_at_least_keeps_all(t, min_stake);
    lemma_owners_staking_at_least_keeps_all(t, 0);
    assert forall|i: int|
        0 <= i < collator_nums && i < top.len() && #[trigger] top[i].amount >= min_stake implies selected(
            top,
            collator_nums,
            min_stake,
        ).contains(top[i].owner) by {
        assert(t[i] == top[i]);
        assert(t[i].amount >= min_stake);
    }
}

/// The selected collators are no more than `collator_nums`, and each is
/// one of the first `collator_nums` top candidates, staking at least the
/// least collator stake.
pub proof fn law_selected_are_top_collators(top: Seq<Bond>, collator_nums: u32, min_stake: u128)
    ensures
        selected(top, collator_nums, min_stake).len() <= collator_nums,
        forall|j: int|
            0 <= j < selected(top, collator_nums, min_stake).len() ==> exists|i: int|
                0 <= i < collator_nums && i < top.len() && top[i].owner == #[trigger] selected(
                    top,
                    collator_nums,
                    min_stake,
                )[j] && top[i].amount >= min_stake,
{
    let n = if collator_nums < top.len() {
        collator_nums as int
    } else {
        top.len() as int
    };
    let t = top.take(n);
    lemma_owners_staking_at_least(t, min_stake);
    assert forall|j: int| 0 <= j < selected(top, collator_nums, min_stake).len() implies exists|
        i: int,
    |
        0 <= i < collator_nums && i < top.len() && top[i].owner == #[trigger] selected(
            top,
            collator_nums,
            min_stake,
        )[j] && top[i].amount >= min_stake by {
        let v = owners_staking_at_least(t, min_stake);
        let i = choose|i: int| 0 <= i < t.len() && t[i].owner == #[trigger] v[j] && t[i].amount >= min_stake;
        assert(t[i] == top[i]);
    }
}

/// A change of stake keeps the top candidates descending by stake and
/// within their bound, never shrinks them, and leaves the candidate among
/// them with its new stake, unless it could not enter, in which case they
/// are unchanged. A candidate that is not among them enters exactly when
/// the set has room, or when its new stake ranks above the last one.
pub proof fn law_top_update_keeps_set(
    top: Seq<Bond>,
    bound: nat,
    collator_nums: u32,
    pool: Map<u64, Candidate>,
    total: TotalStake,
    candidate: u64,
    old_self: u128,
    old_delegations: u128,
    new_self: u128,
    new_delegations: u128,
)
    requires
        descending(top),
        top.len() <= bound,
    ensures
        ({
            let u = top_update(
                top,
                bound,
                collator_nums,
                pool,
                total,
                candidate,
                old_self,
                old_delegations,
                new_self,
                new_delegations,
            );
            let stake = Bond { owner: candidate, amount: sat_add(new_self, new_delegations) };
            &&& descending(u.top)
            &&& u.top.len() <= bound
            &&& u.top.len() >= top.len()
            &&& u.entered <==> (!holds_owner(top, candidate) && bound > 0 && (top.len() < bound
                || ranks_above(stake, top.last())))
            &&& if holds_owner(top, candidate) || u.entered {
                holds_owner(u.top, candidate) && u.top[index_of(u.top, candidate) as int] == stake
            } else {
                u.top == top
            }
        }),
{
    let amount = sat_add(new_self, new_delegations);
    let stake = Bond { owner: candidate, amount };
    if holds_owner(top, candidate) {
        set::lemma_index_of(top, candidate);
        let i = index_of(top, candidate) as int;
        set::lemma_restaked(top, i, amount);
    } else {
        set::lemma_position_of(top, stake);
        let p = position_of(top, stake) as int;
        if top.len() > 0 && top.len() >= bound {
            set::law_place_within_bound_iff_outranks_last(top, stake);
        }
        if bound > 0 && p < bound {
            if top.len() >= bound {
                set::lemma_position_without_last(top, stake);
                set::lemma_inserted_descending(top.drop_last(), stake);
            } else {
                set::lemma_inserted_descending(top, stake);
            }
        }
    }
}

/// The collator seats hold the highest stakes: each of the first
/// `collator_nums` top candidates ranks above every top candidate beyond
/// them.
pub proof fn law_seats_outrank_the_rest(top: Seq<Bond>, collator_nums: u32)
    requires
        descending(top),
    ensures
        forall|i: int, k: int|
            0 <= i < collator_nums && collator_nums <= k < top.len() ==> ranks_above(
                #[trigger] top[i],
                #[trigger] top[k],
            ) && top[i].amount >= top[k].amount,
{
}

impl Pallet {
    /// The storage is consistent with the configuration: the sets are
    /// well formed and bounded as configured, and no candidate has a total
    /// backing below its own stake.
    pub open spec fn wf(&self) -> bool {
        &&& self.top_candidates.wf()
        &&& self.top_candidates.bound() == self.config.max_top_candidates
        &&& forall|k: u64| #[trigger]
            self.candidate_pool@.contains_key(k) ==> {
                let c = self.candidate_pool@[k];
                &&& c.wf()
                &&& c.delegators.bound() == self.config.max_delegators_of_candidate
                &&& c.total_bond >= c.bond
            }
        &&& forall|k: u64| #[trigger]
            self.delegators@.contains_key(k) ==> {
                let d = self.delegators@[k];
                &&& d.wf()
                &&& d.delegations.bound() == self.config.max_delegators_of_candidate
            }
    }

    /// No account is both a candidate and a delegator.
    pub open spec fn roles_apart(&self) -> bool {
        forall|k: u64| #[trigger]
            self.candidate_pool@.contains_key(k) ==> !self.delegators@.contains_key(k)
    }

    /// The pallet at genesis: every storage item holds its default.
    pub fn new(config: Config) -> (r: Pallet)
        ensures
            r.wf(),
            r.config == config,
            r.invulnerables@ == Seq::<u64>::empty(),
            r.candidacy_bond == 0,
            r.collator_bond == 0,
            r.candidate_pool@ == Map::<u64, Candidate>::empty(),
            r.top_candidates@ == Seq::<Bond>::empty(),
            r.delegators@ == Map::<u64, Delegator>::empty(),
            r.round == (RoundInfo { current: 0, first: 0, length: 30 }),
            r.total_staking == 0,
            r.total_collator_stake == (TotalStake { collators: 0, delegators: 0 }),
            r.collator_nums == 0,
            r.roles_apart(),
    {
        Pallet {
            config,
            invulnerables: Vec::new(),
            candidacy_bond: 0,
            collator_bond: 0,
            candidate_pool: BTreeMap::new(),
            top_candidates: OrderedSet::new(config.max_top_candidates),
            delegators: BTreeMap::new(),
            round: RoundInfo::default(),
            total_staking: 0,
            total_collator_stake: TotalStake::default(),
            collator_nums: 0,
        }
    }

    /// The fixed collators.
    pub fn invulnerables(&self) -> (r: Vec<u64>)
        ensures
            r@ == self.invulnerables@,
    {
        let r = self.invulnerables.clone();
        assert(r@ =~= self.invulnerables@);
        r
    }

    /// The least stake to become a candidate.
    pub fn candidacy_bond(&self) -> (r: u128)
        ensures
            r == self.candidacy_bond,
    {
        self.candidacy_bond
    }

    /// The candidate `acc`, if it is one.
    pub fn candidate_info(&self, acc: &u64) -> (r: Option<&Candidate>)
        ensures
            match r {
                Some(c) => self.candidate_pool@.contains_key(*acc) && *c
                    == self.candidate_pool@[*acc],
                None => !self.candidate_pool@.contains_key(*acc),
            },
    {
        self.candidate_pool.get(acc)
    }

    /// The delegator `acc`, if it is one.
    pub fn delegator_info(&self, acc: &u64) -> (r: Option<&Delegator>)
        ensures
            match r {
                Some(d) => self.delegators@.contains_key(*acc) && *d == self.delegators@[*acc],
                None => !self.delegators@.contains_key(*acc),
            },
    {
        self.delegators.get(acc)
    }

    /// The top candidates, from the greatest account to the lowest.
    pub fn top_candidates(&self) -> (r: Vec<Bond>)
        ensures
            r@ == self.top_candidates@,
    {
        self.top_candidates.to_vec()
    }

    /// The current round.
    pub fn round(&self) -> (r: RoundInfo)
        ensures
            r == self.round,
    {
        self.round
    }

    /// The total staked in the pallet.
    pub fn total(&self) -> (r: u128)
        ensures
            r == self.total_staking,
    {
        self.total_staking
    }

    /// The stake of the selected collators and of their delegators.
    pub fn total_collator_stake(&self) -> (r: TotalStake)
        ensures
            r == self.total_collator_stake,
    {
        self.total_collator_stake
    }

    /// The number of candidates selected every round.
    pub fn selected_candidates(&self) -> (r: u32)
        ensures
            r == self.collator_nums,
    {
        self.collator_nums
    }

    /// Whether `acc` is in the candidate pool.
    pub fn is_active_candidate(&self, acc: &u64) -> (r: bool)
        ensures
            r == self.candidate_pool@.contains_key(*acc),
    {
        self.candidate_pool.contains_key(acc)
    }

    /// Whether `acc` is a delegator.
    pub fn is_delegator(&self, acc: &u64) -> (r: bool)
        ensures
            r == self.delegators@.contains_key(*acc),
    {
        self.delegators.contains_key(acc)
    }

    /// Sets the fixed collators (root only). `keys` gives, for each account
    /// of `new` in turn, what the session knows of its author key; the call
    /// fails at the first account without a key or with one not registered.
    pub fn set_invulnerables(&mut self, origin: Origin, new: Vec<u64>, keys: Vec<AuthorKey>) -> (r:
        Result<Vec<Effect>, DispatchError<Error>>)
        requires
            old(self).wf(),
            keys.len() == new.len(),
        ensures
            final(self).wf(),
            origin != Origin::Root ==> r == Err::<Vec<Effect>, DispatchError<Error>>(
                DispatchError::BadOrigin,
            ) && *final(self) == *old(self),
            origin == Origin::Root && keys_check(keys@) is Some ==> r == Err::<
                Vec<Effect>,
                DispatchError<Error>,
            >(DispatchError::Module(keys_check(keys@)->0)) && *final(self) == *old(self),
            origin == Origin::Root && keys_check(keys@) is None ==> (r matches Ok(effects) && {
                &&& effects@.len() == 1
                &&& effects@[0] matches Effect::Emit(Event::NewInvulnerables(v))
                &&& v@ == new@
            }) && final(self).invulnerables@ == new@ && *final(self) == (Pallet {
                invulnerables: final(self).invulnerables,
                ..*old(self)
            }),
    {
        ensure_root(origin)?;
        let mut i: usize = 0;
        assert(keys@.subrange(0, keys.len() as int) =~= keys@);
        while i < keys.len()
            invariant
                i <= keys.len(),
                *self == *old(self),
                old(self).wf(),
                origin == Origin::Root,
                keys_check(keys@) == keys_check(keys@.subrange(i as int, keys.len() as int)),
            decreases keys.len() - i,
        {
            proof {
                let s = keys@.subrange(i as int, keys.len() as int);
                assert(s[0] == keys@[i as int]);
                assert(s.drop_first() =~= keys@.subrange(i as int + 1, keys.len() as int));
            }
            match keys[i] {
                AuthorKey::Missing => {
                    return Err(DispatchError::Module(Error::NoAssociatedAuthorId));
                },
                AuthorKey::Unregistered => {
                    return Err(DispatchError::Module(Error::CandidateNotRegistered));
                },
                AuthorKey::Registered => {},
            }
            i = i + 1;
        }
        proof {
            assert(keys@.subrange(keys.len() as int, keys.len() as int).len() == 0);
        }
        let emitted = new.clone();
        assert(emitted@ =~= new@);
        self.invulnerables = new;
        let mut effects: Vec<Effect> = Vec::new();
        effects.push(Effect::Emit(Event::NewInvulnerables(emitted)));
        Ok(effects)
    }

    /// Sets the least stake to become a candidate (root only).
    pub fn set_candidacy_bond(&mut self, origin: Origin, bond: u128) -> (r: Result<
        Vec<Effect>,
        DispatchError<Error>,
    >)
        requires
            old(self).wf(),
        ensures
            final(self).wf(),
            origin != Origin::Root ==> r == Err::<Vec<Effect>, DispatchError<Error>>(
                DispatchError::BadOrigin,
            ) && *final(self) == *old(self),
            origin == Origin::Root ==> (r matches Ok(effects) && effects@ == seq![
                Effect::Emit(Event::NewCandidacyBond(bond)),
            ]) && *final(self) == (Pallet { candidacy_bond: bond, ..*old(self) }),
    {
        ensure_root(origin)?;
        self.candidacy_bond = bond;
        let mut effects: Vec<Effect> = Vec::new();
        effects.push(Effect::Emit(Event::NewCandidacyBond(bond)));
        Ok(effects)
    }

    /// Sets the number of candidates selected per round (root only): it may
    /// not be below the configured least, equal to the current number, or
    /// above the round length.
    pub fn set_collator_num(&mut self, origin: Origin, new: u32) -> (r: Result<
        Vec<Effect>,
        DispatchError<Error>,
    >)
        requires
            old(self).wf(),
        ensures
            final(self).wf(),
            ({
                let old_nums = old(self).collator_nums;
                let error = if origin != Origin::Root {
                    Some(DispatchError::BadOrigin)
                } else if new < old(self).config.min_selected_candidates {
                    Some(DispatchError::Module(Error::BelowMinSelectedCandidates))
                } else if old_nums == new {
                    Some(DispatchError::Module(Error::NoSettingSameCollatorNums))
                } else if new > old(self).round.length {
                    Some(DispatchError::Module(Error::RoundLengthLessThanCollatorNums))
                } else {
                    None
                };
                match error {
                    Some(e) => r == Err::<Vec<Effect>, DispatchError<Error>>(e) && *final(self)
                        == *old(self),
                    None => (r matches Ok(effects) && effects@ == seq![
                        Effect::Emit(Event::NewCollatorNumsSet(old_nums, new)),
                    ]) && *final(self) == (Pallet { collator_nums: new, ..*old(self) }),
                }
            }),
    {
        ensure_root(origin)?;
        if new < self.config.min_selected_candidates {
            return Err(DispatchError::Module(Error::BelowMinSelectedCandidates));
        }
        let old = self.collator_nums;
        if old == new {
            return Err(DispatchError::Module(Error::NoSettingSameCollatorNums));
        }
        if new > self.round.length {
            return Err(DispatchError::Module(Error::RoundLengthLessThanCollatorNums));
        }
        self.collator_nums = new;
        let mut effects: Vec<Effect> = Vec::new();
        effects.push(Effect::Emit(Event::NewCollatorNumsSet(old, new)));
        Ok(effects)
    }

    /// Sets the length of rounds in blocks (root only): it may not be below
    /// the configured least, equal to the current length, or below the
    /// number of selected candidates. A length shorter than the current
    /// round ends it at the next block.
    pub fn set_round_length(&mut self, origin: Origin, new: u32) -> (r: Result<
        Vec<Effect>,
        DispatchError<Error>,
    >)
        requires
            old(self).wf(),
        ensures
            final(self).wf(),
            ({
                let round = old(self).round;
                let error = if origin != Origin::Root {
                    Some(DispatchError::BadOrigin)
                } else if new < old(self).config.min_length_per_round {
                    Some(DispatchError::Module(Error::BelowMinlength))
                } else if round.length == new {
                    Some(DispatchError::Module(Error::NotSameRoundLength))
                } else if new < old(self).collator_nums {
                    Some(DispatchError::Module(Error::RoundLengthLessThanCollatorNums))
                } else {
                    None
                };
                match error {
                    Some(e) => r == Err::<Vec<Effect>, DispatchError<Error>>(e) && *final(self)
                        == *old(self),
                    None => (r matches Ok(effects) && effects@ == seq![
                        Effect::Emit(
                            Event::RoundLengthSet(round.current, round.first, round.length, new),
                        ),
                    ]) && *final(self) == (Pallet {
                        round: RoundInfo { length: new, ..round },
                        ..*old(self)
                    }),
                }
            }),
    {
        ensure_root(origin)?;
        if new < self.config.min_length_per_round {
            return Err(DispatchError::Module(Error::BelowMinlength));
        }
        let mut round = self.round;
        let (round_index, round_first, old_length) = (round.current, round.first, round.length);
        if old_length == new {
            return Err(DispatchError::Module(Error::NotSameRoundLength));
        }
        if new < self.collator_nums {
            return Err(DispatchError::Module(Error::RoundLengthLessThanCollatorNums));
        }
        round.length = new;
        self.round = round;
        let mut effects: Vec<Effect> = Vec::new();
        effects.push(
            Effect::Emit(Event::RoundLengthSet(round_index, round_first, old_length, new)),
        );
        Ok(effects)
    }

    /// The stake of the top candidate at `index`, as its own bond and what
    /// its delegators add, when it is in the pool.
    fn get_top_candidate_stake_at(&self, index: usize) -> (r: Option<(u128, u128)>)
        requires
            self.wf(),
        ensures
            r == pool_stake_at(self.top_candidates@, self.candidate_pool@, index as int),
    {
        match self.top_candidates.get(index) {
            Some(stake) => match self.candidate_pool.get(&stake.owner) {
                Some(state) => Some((state.bond, state.total_bond - state.bond)),
                None => None,
            },
            None => None,
        }
    }

    /// Moves the collators' total stake: takes the `sub` amounts off and
    /// puts the `add` amounts on, saturating.
    fn update_total_stake_by(
        &mut self,
        add_collators: u128,
        add_delegators: u128,
        sub_collators: u128,
        sub_delegators: u128,
    )
        ensures
            *final(self) == (Pallet {
                total_collator_stake: moved_total(
                    old(self).total_collator_stake,
                    add_collators,
                    add_delegators,
                    sub_collators,
                    sub_delegators,
                ),
                ..*old(self)
            }),
    {
        let mut total = self.total_collator_stake;
        total.collators = total.collators.saturating_sub(sub_collators).saturating_add(
            add_collators,
        );
        total.delegators = total.delegators.saturating_sub(sub_delegators).saturating_add(
            add_delegators,
        );
        self.total_collator_stake = total;
    }

    /// Updates the top candidates, and the collators' total stake, for a
    /// change of the stake of `candidate` from `old_self` and
    /// `old_delegations` to `new_self` and `new_delegations` (see
    /// [`top_update`]), and returns the number of top candidates before the
    /// change. Entering the top candidates is announced in `effects`.
    pub fn update_top_candidates(
        &mut self,
        candidate: u64,
        old_self: u128,
        old_delegations: u128,
        new_self: u128,
        new_delegations: u128,
        effects: &mut Vec<Effect>,
    ) -> (r: u32)
        requires
            old(self).wf(),
        ensures
            final(self).wf(),
            r == old(self).top_candidates@.len(),
            ({
                let u = top_update(
                    old(self).top_candidates@,
                    old(self).top_candidates.bound(),
                    old(self).collator_nums,
                    old(self).candidate_pool@,
                    old(self).total_collator_stake,
                    candidate,
                    old_self,
                    old_delegations,
                    new_self,
                    new_delegations,
                );
                &&& final(self).top_candidates@ == u.top
                &&& final(self).total_collator_stake == u.total
                &&& final(effects)@ == old(effects)@ + entered_events(u.entered, candidate)
            }),
            final(self).top_candidates.bound() == old(self).top_candidates.bound(),
            final(self).config == old(self).config,
            final(self).invulnerables == old(self).invulnerables,
            final(self).candidacy_bond == old(self).candidacy_bond,
            final(self).collator_bond == old(self).collator_bond,
            final(self).candidate_pool == old(self).candidate_pool,
            final(self).delegators == old(self).delegators,
            final(self).round == old(self).round,
            final(self).total_staking == old(self).total_staking,
            final(self).collator_nums == old(self).collator_nums,
    {
        let ghost top0 = self.top_candidates@;
        proof {
            self.top_candidates.lemma_wf();
        }
        let num_top_candidates = self.top_candidates.len() as u32;
        let old_stake = Bond { owner: candidate, amount: old_self.saturating_add(old_delegations) };
        let new_stake = Bond { owner: candidate, amount: new_self.saturating_add(new_delegations) };
        // Some(Some(old index) or None) when the set changed.
        let maybe_top_candidate_update: Option<Option<usize>> = match self.top_candidates.linear_search(
            &old_stake,
        ) {
            Ok(i) => {
                // case 1: the candidate is a top candidate with its old stake;
                // it takes its new stake and moves to its place
                self.top_candidates.set_amount(i, new_stake.amount);
                proof {
                    set::lemma_index_of(top0, candidate);
                    set::lemma_restaked(top0, i as int, new_stake.amount);
                }
                Some(Some(i))
            },
            Err(_) => {
                if self.top_candidates.try_insert_replace(new_stake).is_ok() {
                    // case 2: the candidate enters the top candidates with its new
                    // stake, and may push out the last one
                    effects.push(Effect::Emit(Event::EnteredTopCandidates(candidate)));
                    proof {
                        set::lemma_position_of(top0, new_stake);
                        if top0.len() >= self.top_candidates.bound() {
                            set::lemma_position_without_last(top0, new_stake);
                            set::lemma_inserted_descending(top0.drop_last(), new_stake);
                        } else {
                            set::lemma_inserted_descending(top0, new_stake);
                        }
                    }
                    Some(None)
                } else {
                    // case 3: the candidate neither was nor will be a top candidate
                    None
                }
            },
        };
        if let Some(maybe_old_idx) = maybe_top_candidate_update {
            let max_selected_candidates = self.collator_nums as usize;
            let was_collating = match maybe_old_idx {
                Some(i) => i < max_selected_candidates,
                None => false,
            };
            let is_collating = match self.top_candidates.linear_search(&new_stake) {
                Ok(i) => i < max_selected_candidates,
                Err(_) => false,
            };
            self.move_collators_total(
                was_collating,
                is_collating,
                old_self,
                old_delegations,
                new_self,
                new_delegations,
            );
        }
        num_top_candidates
    }

    /// Moves the collators' total for a candidate whose stake changed, as
    /// [`collators_moved`] says, on the top candidates as they now are.
    fn move_collators_total(
        &mut self,
        was_collating: bool,
        is_collating: bool,
        old_self: u128,
        old_delegations: u128,
        new_self: u128,
        new_delegations: u128,
    )
        requires
            old(self).wf(),
        ensures
            *final(self) == (Pallet {
                total_collator_stake: collators_moved(
                    old(self).top_candidates@,
                    old(self).candidate_pool@,
                    old(self).total_collator_stake,
                    old(self).collator_nums,
                    was_collating,
                    is_collating,
                    old_self,
                    old_delegations,
                    new_self,
                    new_delegations,
                ),
                ..*old(self)
            }),
    {
        let max_selected_candidates = self.collator_nums as usize;
        if was_collating && is_collating {
            self.update_total_stake_by(new_self, new_delegations, old_self, old_delegations);
        } else if was_collating && !is_collating {
            // the candidate left the collators and was replaced by the next one
            let len = self.top_candidates.len();
            let shown = if max_selected_candidates < len {
                max_selected_candidates
            } else {
                len
            };
            let new_col_idx = shown.saturating_sub(1);
            let (add_collators, add_delegators) = match self.get_top_candidate_stake_at(
                new_col_idx,
            ) {
                Some(stake) => stake,
                None => (new_self, new_delegations),
            };
            self.update_total_stake_by(add_collators, add_delegators, old_self, old_delegations);
        } else if !was_collating && is_collating {
            // the candidate pushed out the least staked collator
            let last = self.top_candidates.len().saturating_sub(1);
            let old_col_idx = if max_selected_candidates < last {
                max_selected_candidates
            } else {
                last
            };
            let (drop_self, drop_delegators) = match self.get_top_candidate_stake_at(
                old_col_idx,
            ) {
                Some(stake) => stake,
                None => (0, 0),
            };
            self.update_total_stake_by(new_self, new_delegations, drop_self, drop_delegators);
        }
    }

    /// Applies to be a candidate, staking `stake`; `can_reserve` tells
    /// whether the account can reserve the stake. The signed account must
    /// be neither a candidate, a delegator nor a fixed collator, must stake
    /// at least the candidacy bond, and must be able to reserve it. The
    /// stake is reserved, the account enters the pool as an active
    /// candidate, the stake is added to the pallet's total, and the top
    /// candidates are updated for it.
    pub fn apply_candidate(&mut self, origin: Origin, stake: u128, can_reserve: bool) -> (r: Result<
        Vec<Effect>,
        DispatchError<Error>,
    >)
        requires
            old(self).wf(),
        ensures
            final(self).wf(),
            old(self).roles_apart() ==> final(self).roles_apart(),
            match origin {
                Origin::Signed(who) => match apply_candidate_check(*old(self), who, stake, can_reserve) {
                    Some(e) => r == Err::<Vec<Effect>, DispatchError<Error>>(
                        DispatchError::Module(e),
                    ) && *final(self) == *old(self),
                    None => {
                        let total = sat_add(old(self).total_staking, stake);
                        let u = top_update(
                            old(self).top_candidates@,
                            old(self).top_candidates.bound(),
                            old(self).collator_nums,
                            final(self).candidate_pool@,
                            old(self).total_collator_stake,
                            who,
                            0,
                            0,
                            stake,
                            0,
                        );
                        let c = final(self).candidate_pool@[who];
                        &&& final(self).candidate_pool@.contains_key(who)
                        &&& final(self).candidate_pool@.remove(who) == old(self).candidate_pool@
                        &&& c.bond == stake
                        &&& c.total_bond == stake
                        &&& c.delegators@ == Seq::<Bond>::empty()
                        &&& c.delegators.bound() == old(self).config.max_delegators_of_candidate
                        &&& c.status == CandidateStatus::Active
                        &&& final(self).total_staking == total
                        &&& final(self).top_candidates@ == u.top
                        &&& final(self).total_collator_stake == u.total
                        &&& r matches Ok(effects) && effects@ == seq![
                            Effect::Reserve(who, stake),
                            Effect::Emit(Event::NewCandidate(who, stake)),
                            Effect::Emit(Event::TotalStaking(total)),
                        ] + entered_events(u.entered, who) + seq![
                            Effect::Emit(
                                Event::TotalCandidate(old(self).top_candidates@.len() as u32),
                            ),
                        ]
                        &&& final(self).config == old(self).config
                        &&& final(self).invulnerables == old(self).invulnerables
                        &&& final(self).candidacy_bond == old(self).candidacy_bond
                        &&& final(self).collator_bond == old(self).collator_bond
                        &&& final(self).delegators == old(self).delegators
                        &&& final(self).round == old(self).round
                        &&& final(self).collator_nums == old(self).collator_nums
                    },
                },
                _ => r == Err::<Vec<Effect>, DispatchError<Error>>(DispatchError::BadOrigin)
                    && *final(self) == *old(self),
            },
    {
        let who = ensure_signed(origin)?;
        if self.is_active_candidate(&who) {
            return Err(DispatchError::Module(Error::CandidateExists));
        }
        if self.is_delegator(&who) {
            return Err(DispatchError::Module(Error::DelegatorExists));
        }
        if contains_account(&self.invulnerables, who) {
            return Err(DispatchError::Module(Error::AlreadyInvulnerable));
        }
        if stake < self.candidacy_bond {
            return Err(DispatchError::Module(Error::NotEnoughStakingForCandidate));
        }
        if !can_reserve {
            return Err(DispatchError::Module(Error::InsufficientBalance));
        }
        let mut effects: Vec<Effect> = Vec::new();
        effects.push(Effect::Reserve(who, stake));
        let candidate = Candidate::new(stake, self.config.max_delegators_of_candidate);
        self.candidate_pool.insert(who, candidate);
        effects.push(Effect::Emit(Event::NewCandidate(who, stake)));
        let new_total_staking = self.total_staking.saturating_add(stake);
        self.total_staking = new_total_staking;
        effects.push(Effect::Emit(Event::TotalStaking(new_total_staking)));
        proof {
            assert(self.candidate_pool@.remove(who) =~= old(self).candidate_pool@);
        }
        let n = self.update_top_candidates(who, 0, 0, stake, 0, &mut effects);
        effects.push(Effect::Emit(Event::TotalCandidate(n)));
        Ok(effects)
    }

    /// Delegates `amount` of the signed account to `candidate`;
    /// `can_reserve` tells whether the account can reserve `amount`. A
    /// delegator that already delegates must be active, delegate more than
    /// the least delegation, have fewer delegations than allowed, and not
    /// yet delegate to `candidate`; a new delegator must delegate more than
    /// the least first delegation and not be a candidate. The candidate must
    /// be in the pool, not leaving, and not yet backed by the account. The
    /// amount is then reserved, the delegation is recorded on both sides (on
    /// the candidate's side, with the amount added to its total backing,
    /// only when its delegator set has room) and the top candidates are
    /// updated for the candidate's new backing.
    pub fn apply_delegate(
        &mut self,
        origin: Origin,
        candidate: u64,
        amount: u128,
        can_reserve: bool,
    ) -> (r: Result<Vec<Effect>, DispatchError<Error>>)
        requires
            old(self).wf(),
        ensures
            final(self).wf(),
            old(self).roles_apart() ==> final(self).roles_apart(),
            match origin {
                Origin::Signed(who) => match apply_delegate_check(
                    *old(self),
                    who,
                    candidate,
                    amount,
                    can_reserve,
                ) {
                    Some(e) => r == Err::<Vec<Effect>, DispatchError<Error>>(
                        DispatchError::Module(e),
                    ) && *final(self) == *old(self),
                    None => {
                        let c = old(self).candidate_pool@[candidate];
                        let c2 = final(self).candidate_pool@[candidate];
                        let d2 = final(self).delegators@[who];
                        let u = top_update(
                            old(self).top_candidates@,
                            old(self).top_candidates.bound(),
                            old(self).collator_nums,
                            final(self).candidate_pool@,
                            old(self).total_collator_stake,
                            candidate,
                            c.bond,
                            (c.total_bond - c.bond) as u128,
                            c.bond,
                            (c2.total_bond - c.bond) as u128,
                        );
                        let recorded = c.delegators@.len() < c.delegators.bound();
                        &&& total_is_backing(c) && c.total_bond + amount <= u128::MAX
                            ==> total_is_backing(c2)
                        &&& final(self).candidate_pool@.dom() == old(self).candidate_pool@.dom()
                        &&& final(self).candidate_pool@.remove(candidate) == old(
                            self,
                        ).candidate_pool@.remove(candidate)
                        &&& c2.bond == c.bond
                        &&& c2.total_bond == if recorded {
                            sat_add(c.total_bond, amount)
                        } else {
                            c.total_bond
                        }
                        &&& c2.status == c.status
                        &&& c2.delegators.bound() == c.delegators.bound()
                        &&& c2.delegators@ == if recorded {
                            inserted(c.delegators@, Bond { owner: who, amount })
                        } else {
                            c.delegators@
                        }
                        &&& final(self).delegators@.contains_key(who)
                        &&& final(self).delegators@.remove(who) == old(self).delegators@.remove(
                            who,
                        )
                        &&& if old(self).delegators@.contains_key(who) {
                            let d = old(self).delegators@[who];
                            &&& d2.delegations@ == inserted(
                                d.delegations@,
                                Bond { owner: candidate, amount },
                            )
                            &&& d2.total == sat_add(d.total, amount)
                            &&& d2.status == d.status
                            &&& d2.delegations.bound() == d.delegations.bound()
                        } else {
                            &&& d2.delegations@ == seq![Bond { owner: candidate, amount }]
                            &&& d2.total == amount
                            &&& d2.status == DelegatorStatus::Active
                            &&& d2.delegations.bound()
                                == old(self).config.max_delegators_of_candidate
                        }
                        &&& final(self).top_candidates@ == u.top
                        &&& final(self).total_collator_stake == u.total
                        &&& r matches Ok(effects) && effects@ == seq![
                            Effect::Reserve(who, amount),
                            Effect::Emit(Event::NewDelegation(who, candidate, amount)),
                        ] + entered_events(u.entered, candidate) + seq![
                            Effect::Emit(
                                Event::TotalCandidate(old(self).top_candidates@.len() as u32),
                            ),
                        ]
                        &&& final(self).config == old(self).config
                        &&& final(self).invulnerables == old(self).invulnerables
                        &&& final(self).candidacy_bond == old(self).candidacy_bond
                        &&& final(self).collator_bond == old(self).collator_bond
                        &&& final(self).round == old(self).round
                        &&& final(self).total_staking == old(self).total_staking
                        &&& final(self).collator_nums == old(self).collator_nums
                    },
                },
                _ => r == Err::<Vec<Effect>, DispatchError<Error>>(DispatchError::BadOrigin)
                    && *final(self) == *old(self),
            },
    {
        let who = ensure_signed(origin)?;
        if !can_reserve {
            return Err(DispatchError::Module(Error::InsufficientBalance));
        }
        let existing = match self.delegators.get(&who) {
            Some(dgt_state) => {
                if !dgt_state.is_active() {
                    return Err(DispatchError::Module(Error::InactiveDelegator));
                }
                if amount <= self.config.minimum_delegation {
                    return Err(DispatchError::Module(Error::TooLowDelegation));
                }
                if dgt_state.delegations.len() >= self.config.max_candidates_per_delegator as usize {
                    return Err(DispatchError::Module(Error::TooManydelegations));
                }
                if dgt_state.delegations.len() >= dgt_state.delegations.capacity() as usize
                    || dgt_state.delegations.contains(&Bond { owner: candidate, amount }) {
                    return Err(DispatchError::Module(Error::AlreadyDelegate));
                }
                true
            },
            None => {
                if amount <= self.config.minimum_delegator_bond {
                    return Err(DispatchError::Module(Error::TooLowDelegatorBond));
                }
                if self.is_active_candidate(&who) {
                    return Err(DispatchError::Module(Error::CandidateExists));
                }
                if self.config.max_delegators_of_candidate == 0 {
                    return Err(DispatchError::Module(Error::TooManydelegations));
                }
                false
            },
        };
        match self.candidate_pool.get(&candidate) {
            None => {
                return Err(DispatchError::Module(Error::CandidateNotExist));
            },
            Some(candidate_info) => {
                if candidate_info.is_leaving() {
                    return Err(DispatchError::Module(Error::InactiveCandidate));
                }
                if candidate_info.delegators.len() < candidate_info.delegators.capacity() as usize
                    && candidate_info.delegators.contains(&Bond { owner: who, amount }) {
                    return Err(DispatchError::Module(Error::DelegatorExistOfCandidate));
                }
            },
        }
        // every check passed: record the delegation
        let delegate_info = if existing {
            let mut dgt_state = self.delegators.remove(&who).unwrap();
            dgt_state.add_delegation(Bond { owner: candidate, amount });
            dgt_state
        } else {
            match Delegator::new(candidate, amount, self.config.max_delegators_of_candidate) {
                Ok(d) => d,
                Err(()) => {
                    return Err(DispatchError::Module(Error::TooManydelegations));
                },
            }
        };
        let mut candidate_info = self.candidate_pool.remove(&candidate).unwrap();
        let old_total = candidate_info.total_bond;
        let old_bond = candidate_info.bond;
        // a candidate whose delegator set is full takes no further delegator
        let ghost c = candidate_info;
        if let Ok(true) = candidate_info.delegators.try_insert(Bond { owner: who, amount }) {
            candidate_info.total_bond = candidate_info.total_bond.saturating_add(amount);
            proof {
                if total_is_backing(c) && c.total_bond + amount <= u128::MAX {
                    c.delegators.lemma_wf();
                    law_recorded_delegation_keeps_backing(
                        c.bond,
                        c.total_bond,
                        c.delegators@,
                        Bond { owner: who, amount },
                    );
                }
            }
        }
        let mut effects: Vec<Effect> = Vec::new();
        effects.push(Effect::Reserve(who, amount));
        let new_bond = candidate_info.bond;
        let new_total = candidate_info.total_bond;
        self.candidate_pool.insert(candidate, candidate_info);
        self.delegators.insert(who, delegate_info);
        effects.push(Effect::Emit(Event::NewDelegation(who, candidate, amount)));
        proof {
            assert(self.candidate_pool@.dom() =~= old(self).candidate_pool@.dom());
            assert(self.candidate_pool@.remove(candidate) =~= old(self).candidate_pool@.remove(
                candidate,
            ));
            assert(self.delegators@.remove(who) =~= old(self).delegators@.remove(who));
        }
        let n = self.update_top_candidates(
            candidate,
            old_bond,
            old_total - old_bond,
            new_bond,
            new_total - new_bond,
            &mut effects,
        );
        effects.push(Effect::Emit(Event::TotalCandidate(n)));
        Ok(effects)
    }

    /// The account of the pallet: the type id `modl` followed by the
    /// pallet id, decoded as an account.
    pub fn account_id() -> (r: u64)
        ensures
            le_bytes(r as nat, 8) == pallet_account_bytes(),
    {
        let mut bytes: Vec<u8> = Vec::new();
        bytes.push(109u8);
        bytes.push(111u8);
        bytes.push(100u8);
        bytes.push(108u8);
        let id = PALLET_ID;
        let mut i: usize = 0;
        while i < 8
            invariant
                i <= 8,
                id == PALLET_ID,
                bytes@ == seq![109u8, 111u8, 100u8, 108u8] + id@.subrange(0, i as int),
            decreases 8 - i,
        {
            bytes.push(id[i]);
            i = i + 1;
            assert(bytes@ =~= seq![109u8, 111u8, 100u8, 108u8] + id@.subrange(0, i as int));
        }
        let decoded = decode_u64(&bytes);
        assert(bytes@.subrange(0, 8) =~= pallet_account_bytes());
        decoded.unwrap()
    }

    /// Starts a new round at block `now` when the current one has run its
    /// length; returns the weight used, which is zero, and the new round's
    /// event.
    pub fn on_initialize(&mut self, now: u32) -> (r: (u64, Vec<Effect>))
        requires
            old(self).wf(),
        ensures
            final(self).wf(),
            r.0 == 0,
            ({
                let round = old(self).round;
                if round_due(round, now) {
                    let current = if round.current == u32::MAX {
                        u32::MAX
                    } else {
                        (round.current + 1) as u32
                    };
                    &&& *final(self) == (Pallet {
                        round: RoundInfo { current, first: now, length: round.length },
                        ..*old(self)
                    })
                    &&& r.1@ == seq![Effect::Emit(Event::NewRound(now, current))]
                } else {
                    *final(self) == *old(self) && r.1@ == Seq::<Effect>::empty()
                }
            }),
    {
        let mut effects: Vec<Effect> = Vec::new();
        let mut round = self.round;
        if round.should_update(now) {
            round.update(now);
            self.round = round;
            effects.push(Effect::Emit(Event::NewRound(round.first, round.current)));
        }
        (0, effects)
    }

    /// The collators chosen for the next session: of the first
    /// `collator_nums` top candidates, which hold the highest stakes, the
    /// accounts staking at least the least collator stake.
    pub fn selected_top_candidates(&self) -> (r: Vec<u64>)
        requires
            self.wf(),
        ensures
            r@ == selected(
                self.top_candidates@,
                self.collator_nums,
                self.config.minimum_collator_stake,
            ),
    {
        let top_n = self.collator_nums as usize;
        let len = self.top_candidates.len();
        let n = if top_n < len {
            top_n
        } else {
            len
        };
        let ghost top = self.top_candidates@;
        let min_stake = self.config.minimum_collator_stake;
        let mut collators: Vec<u64> = Vec::new();
        let mut i: usize = 0;
        while i < n
            invariant
                i <= n <= top.len(),
                top == self.top_candidates@,
                min_stake == self.config.minimum_collator_stake,
                collators@ == owners_staking_at_least(top.take(i as int), min_stake),
            decreases n - i,
        {
            let stake = self.top_candidates.get(i).unwrap();
            if stake.amount >= min_stake {
                collators.push(stake.owner);
            }
            proof {
                let t = top.take(i as int + 1);
                assert(t.drop_last() =~= top.take(i as int));
                assert(t.last() == stake);
            }
            i = i + 1;
        }
        collators
    }

    /// The next collator set: the fixed collators followed by `candidates`.
    pub fn assemble_collators(&self, candidates: Vec<u64>) -> (r: Vec<u64>)
        ensures
            r@ == self.invulnerables@ + candidates@,
    {
        let mut collators = self.invulnerables.clone();
        assert(collators@ =~= self.invulnerables@);
        let mut rest = candidates;
        collators.append(&mut rest);
        collators
    }

    /// The collators of a new session: the fixed collators followed by the
    /// selected top candidates.
    pub fn new_session(&self, index: RoundIndex) -> (r: Option<Vec<u64>>)
        requires
            self.wf(),
        ensures
            r matches Some(v) && v@ == self.invulnerables@ + selected(
                self.top_candidates@,
                self.collator_nums,
                self.config.minimum_collator_stake,
            ),
    {
        let selected_collators = self.selected_top_candidates();
        Some(self.assemble_collators(selected_collators))
    }

    /// The rewards paid when `author` authors a block, if it is a
    /// candidate: to the author and to each of its delegators, a fifth of
    /// the whole-number quotient of its stake by the candidate's total
    /// backing. A candidate with no backing at all is left out: the
    /// division by its total panics.
    pub fn note_author(&self, author: u64) -> (r: Vec<Effect>)
        requires
            self.wf(),
            self.candidate_pool@.contains_key(author) ==> self.candidate_pool@[author].total_bond
                > 0,
        ensures
            match self.candidate_pool@.get(author) {
                Some(c) => r@ == seq![
                    Effect::DepositIntoExisting(author, author_reward(c.bond, c.total_bond)),
                ] + delegator_rewards(c.delegators@, c.total_bond),
                None => r@ == Seq::<Effect>::empty(),
            },
    {
        let mut effects: Vec<Effect> = Vec::new();
        if let Some(candidate_state) = self.candidate_pool.get(&author) {
            let total = candidate_state.total_bond;
            let col_reward = percent_of(AUTHOR_REWARD_PERCENT, candidate_state.bond / total);
            effects.push(Effect::DepositIntoExisting(author, col_reward));
            let ghost s = candidate_state.delegators@;
            let n = candidate_state.delegators.len();
            let mut i: usize = 0;
            while i < n
                invariant
                    i <= n == s.len(),
                    s == candidate_state.delegators@,
                    total > 0,
                    effects@ == seq![
                        Effect::DepositIntoExisting(author, author_reward(candidate_state.bond, total)),
                    ] + delegator_rewards(s.take(i as int), total),
                decreases n - i,
            {
                let bond = candidate_state.delegators.get(i).unwrap();
                let del_reward = percent_of(AUTHOR_REWARD_PERCENT, bond.amount / total);
                effects.push(Effect::DepositIntoExisting(bond.owner, del_reward));
                proof {
                    assert(s.take(i as int + 1) =~= s.take(i as int).push(bond));
                    assert(delegator_rewards(s.take(i as int + 1), total) =~= delegator_rewards(
                        s.take(i as int),
                        total,
                    ).push(Effect::DepositIntoExisting(bond.owner, author_reward(bond.amount, total))));
                }
                i = i + 1;
            }
            assert(s.take(n as int) =~= s);
        }
        effects
    }
}

/// Whether `accounts` holds `acc`.
fn contains_account(accounts: &Vec<u64>, acc: u64) -> (r: bool)
    ensures
        r == accounts@.contains(acc),
{
    let mut i: usize = 0;
    while i < accounts.len()
        invariant
            i <= accounts.len(),
            forall|j: int| 0 <= j < i ==> accounts@[j] != acc,
        decreases accounts.len() - i,
    {
        if accounts[i] == acc {
            return true;
        }
        i = i + 1;
    }
    false
}

} // verus!
