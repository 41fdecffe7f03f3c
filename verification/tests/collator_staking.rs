use dora_pallets::collator_staking::bond::Bond;
use dora_pallets::collator_staking::types::{CandidateStatus, DelegatorStatus, RoundInfo, TotalStake};
use dora_pallets::collator_staking::{AuthorKey, Config, Effect, Error, Event, Pallet};
use dora_pallets::dispatch::{DispatchError, Origin};

fn config() -> Config {
    Config {
        max_invulnerables: 5,
        min_selected_candidates: 1,
        min_length_per_round: 10,
        max_delegations_per_round: 1,
        max_delegators_of_candidate: 2,
        max_candidates_per_delegator: 3,
        max_top_candidates: 3,
        minimum_delegation: 5,
        minimum_delegator_bond: 5,
        minimum_collator_stake: 0,
    }
}

fn module(e: Error) -> DispatchError<Error> {
    DispatchError::Module(e)
}

fn top(p: &Pallet) -> Vec<(u64, u128)> {
    p.top_candidates.to_vec().iter().map(|b| (b.owner, b.amount)).collect()
}

/// A pallet selecting one collator, with candidates 1, 10 and 5 on top (by
/// stake) and 20 and 30 applied but left out: 30 could not enter the full
/// set, and 1 entered it and pushed out 20.
fn four_candidates() -> Pallet {
    let mut p = Pallet::new(config());
    p.set_collator_num(Origin::Root, 1).unwrap();
    p.apply_candidate(Origin::Signed(10), 100, true).unwrap();
    p.apply_candidate(Origin::Signed(20), 50, true).unwrap();
    p.apply_candidate(Origin::Signed(5), 70, true).unwrap();
    p.apply_candidate(Origin::Signed(30), 10, true).unwrap();
    p.apply_candidate(Origin::Signed(1), 1000, true).unwrap();
    p
}

#[test]
fn genesis_holds_the_defaults() {
    let p = Pallet::new(config());
    assert!(p.invulnerables.is_empty());
    assert_eq!(p.candidacy_bond, 0);
    assert_eq!(p.round, RoundInfo { current: 0, first: 0, length: 30 });
    assert_eq!(p.collator_nums, 0);
    assert_eq!(p.total_collator_stake, TotalStake { collators: 0, delegators: 0 });
    assert!(p.top_candidates.is_empty());
}

#[test]
fn set_invulnerables_checks_every_author_key() {
    let mut p = Pallet::new(config());
    assert_eq!(
        p.set_invulnerables(Origin::Signed(1), vec![1], vec![AuthorKey::Registered]),
        Err(DispatchError::BadOrigin)
    );
    assert_eq!(
        p.set_invulnerables(
            Origin::Root,
            vec![1, 2, 3],
            vec![AuthorKey::Registered, AuthorKey::Missing, AuthorKey::Unregistered]
        ),
        Err(module(Error::NoAssociatedAuthorId))
    );
    assert_eq!(
        p.set_invulnerables(
            Origin::Root,
            vec![1, 2],
            vec![AuthorKey::Registered, AuthorKey::Unregistered]
        ),
        Err(module(Error::CandidateNotRegistered))
    );
    assert!(p.invulnerables.is_empty());
    let effects = p
        .set_invulnerables(Origin::Root, vec![1, 2], vec![AuthorKey::Registered; 2])
        .unwrap();
    assert_eq!(effects, vec![Effect::Emit(Event::NewInvulnerables(vec![1, 2]))]);
    assert_eq!(p.invulnerables, vec![1, 2]);
}

#[test]
fn set_candidacy_bond_is_root_only() {
    let mut p = Pallet::new(config());
    assert_eq!(p.set_candidacy_bond(Origin::Unsigned, 9), Err(DispatchError::BadOrigin));
    assert_eq!(
        p.set_candidacy_bond(Origin::Root, 9).unwrap(),
        vec![Effect::Emit(Event::NewCandidacyBond(9))]
    );
    assert_eq!(p.candidacy_bond, 9);
}

#[test]
fn set_collator_num_checks_the_bounds() {
    let mut p = Pallet::new(config());
    assert_eq!(p.set_collator_num(Origin::Signed(1), 2), Err(DispatchError::BadOrigin));
    assert_eq!(p.set_collator_num(Origin::Root, 0), Err(module(Error::BelowMinSelectedCandidates)));
    assert_eq!(p.set_collator_num(Origin::Root, 31), Err(module(Error::RoundLengthLessThanCollatorNums)));
    assert_eq!(
        p.set_collator_num(Origin::Root, 30).unwrap(),
        vec![Effect::Emit(Event::NewCollatorNumsSet(0, 30))]
    );
    assert_eq!(p.set_collator_num(Origin::Root, 30), Err(module(Error::NoSettingSameCollatorNums)));
    assert_eq!(p.collator_nums, 30);
}

#[test]
fn set_round_length_checks_the_bounds() {
    let mut p = Pallet::new(config());
    p.set_collator_num(Origin::Root, 12).unwrap();
    assert_eq!(p.set_round_length(Origin::Relay, 20), Err(DispatchError::BadOrigin));
    assert_eq!(p.set_round_length(Origin::Root, 9), Err(module(Error::BelowMinlength)));
    assert_eq!(p.set_round_length(Origin::Root, 30), Err(module(Error::NotSameRoundLength)));
    assert_eq!(p.set_round_length(Origin::Root, 11), Err(module(Error::RoundLengthLessThanCollatorNums)));
    assert_eq!(
        p.set_round_length(Origin::Root, 12).unwrap(),
        vec![Effect::Emit(Event::RoundLengthSet(0, 0, 30, 12))]
    );
    assert_eq!(p.round.length, 12);
}

#[test]
fn apply_candidate_reserves_and_enters_the_top() {
    let mut p = Pallet::new(config());
    p.set_collator_num(Origin::Root, 1).unwrap();
    let effects = p.apply_candidate(Origin::Signed(10), 100, true).unwrap();
    assert_eq!(
        effects,
        vec![
            Effect::Reserve(10, 100),
            Effect::Emit(Event::NewCandidate(10, 100)),
            Effect::Emit(Event::TotalStaking(100)),
            Effect::Emit(Event::EnteredTopCandidates(10)),
            Effect::Emit(Event::TotalCandidate(0)),
        ]
    );
    let c = p.candidate_pool.get(&10).unwrap();
    assert_eq!((c.bond, c.total_bond, c.status), (100, 100, CandidateStatus::Active));
    assert_eq!(p.total_staking, 100);
    assert_eq!(top(&p), vec![(10, 100)]);
    assert_eq!(p.total_collator_stake, TotalStake { collators: 100, delegators: 0 });
    assert!(p.is_active_candidate(&10));
    assert!(!p.is_delegator(&10));
}

#[test]
fn top_candidates_follow_stake_order_and_bound() {
    let p = four_candidates();
    assert_eq!(top(&p), vec![(1, 1000), (10, 100), (5, 70)]);
    assert_eq!(p.total_staking, 1230);
    // the collators' total: 1 entered the one seat and took off the stake
    // of 10, pushed off it to index 1
    assert_eq!(p.total_collator_stake, TotalStake { collators: 1000, delegators: 0 });
    assert!(p.is_active_candidate(&20));
    assert!(p.is_active_candidate(&30));
}

#[test]
fn full_top_refuses_a_candidate_placed_beyond_it() {
    let mut p = Pallet::new(config());
    p.set_collator_num(Origin::Root, 1).unwrap();
    p.apply_candidate(Origin::Signed(10), 100, true).unwrap();
    p.apply_candidate(Origin::Signed(20), 50, true).unwrap();
    p.apply_candidate(Origin::Signed(5), 70, true).unwrap();
    let effects = p.apply_candidate(Origin::Signed(30), 10, true).unwrap();
    assert_eq!(
        effects,
        vec![
            Effect::Reserve(30, 10),
            Effect::Emit(Event::NewCandidate(30, 10)),
            Effect::Emit(Event::TotalStaking(230)),
            Effect::Emit(Event::TotalCandidate(3)),
        ]
    );
    assert_eq!(top(&p), vec![(10, 100), (5, 70), (20, 50)]);
}

#[test]
fn full_top_admits_a_higher_stake_and_selects_it() {
    let mut p = Pallet::new(Config { max_top_candidates: 1, ..config() });
    p.set_collator_num(Origin::Root, 1).unwrap();
    p.apply_candidate(Origin::Signed(9), 1, true).unwrap();
    assert_eq!(p.selected_top_candidates(), vec![9]);
    let effects = p.apply_candidate(Origin::Signed(1), 1000, true).unwrap();
    assert_eq!(
        effects,
        vec![
            Effect::Reserve(1, 1000),
            Effect::Emit(Event::NewCandidate(1, 1000)),
            Effect::Emit(Event::TotalStaking(1001)),
            Effect::Emit(Event::EnteredTopCandidates(1)),
            Effect::Emit(Event::TotalCandidate(1)),
        ]
    );
    assert_eq!(top(&p), vec![(1, 1000)]);
    assert_eq!(p.selected_top_candidates(), vec![1]);
    assert_eq!(p.total_collator_stake, TotalStake { collators: 1000, delegators: 0 });
}

#[test]
fn apply_candidate_needs_the_stake_reserved() {
    let mut p = Pallet::new(config());
    p.set_candidacy_bond(Origin::Root, 10).unwrap();
    // the other checks come first
    assert_eq!(
        p.apply_candidate(Origin::Signed(8), 9, false),
        Err(module(Error::NotEnoughStakingForCandidate))
    );
    assert_eq!(p.apply_candidate(Origin::Signed(8), 10, false), Err(module(Error::InsufficientBalance)));
    assert!(p.candidate_pool.is_empty());
    assert_eq!(p.total_staking, 0);
    assert!(p.top_candidates.is_empty());
    assert_eq!(p.total_collator_stake, TotalStake { collators: 0, delegators: 0 });
    assert!(p.apply_candidate(Origin::Signed(8), 10, true).is_ok());
    assert_eq!(p.apply_candidate(Origin::Signed(8), 10, false), Err(module(Error::CandidateExists)));
}

#[test]
fn apply_candidate_refusals() {
    let mut p = Pallet::new(config());
    p.set_invulnerables(Origin::Root, vec![7], vec![AuthorKey::Registered]).unwrap();
    p.set_candidacy_bond(Origin::Root, 10).unwrap();
    assert_eq!(p.apply_candidate(Origin::Root, 10, true), Err(DispatchError::BadOrigin));
    assert_eq!(p.apply_candidate(Origin::Signed(7), 10, true), Err(module(Error::AlreadyInvulnerable)));
    assert_eq!(p.apply_candidate(Origin::Signed(8), 9, true), Err(module(Error::NotEnoughStakingForCandidate)));
    p.apply_candidate(Origin::Signed(8), 10, true).unwrap();
    assert_eq!(p.apply_candidate(Origin::Signed(8), 10, true), Err(module(Error::CandidateExists)));
    p.apply_delegate(Origin::Signed(9), 8, 6, true).unwrap();
    assert_eq!(p.apply_candidate(Origin::Signed(9), 10, true), Err(module(Error::DelegatorExists)));
}

#[test]
fn apply_delegate_records_both_sides() {
    let mut p = four_candidates();
    let effects = p.apply_delegate(Origin::Signed(99), 5, 40, true).unwrap();
    assert_eq!(
        effects,
        vec![
            Effect::Reserve(99, 40),
            Effect::Emit(Event::NewDelegation(99, 5, 40)),
            Effect::Emit(Event::TotalCandidate(3)),
        ]
    );
    let d = p.delegators.get(&99).unwrap();
    assert_eq!(d.total, 40);
    assert_eq!(d.status, DelegatorStatus::Active);
    let dv: Vec<(u64, u128)> = d.delegations.to_vec().iter().map(|b| (b.owner, b.amount)).collect();
    assert_eq!(dv, vec![(5, 40)]);
    let c = p.candidate_pool.get(&5).unwrap();
    let cv: Vec<(u64, u128)> = c.delegators.to_vec().iter().map(|b| (b.owner, b.amount)).collect();
    assert_eq!(cv, vec![(99, 40)]);
    // the delegation adds to the candidate's total backing, not to its bond
    assert_eq!((c.bond, c.total_bond), (70, 110));
    // the top stake of 5 follows its new backing and moves ahead of 10
    assert_eq!(top(&p), vec![(1, 1000), (5, 110), (10, 100)]);
    assert_eq!(p.total_staking, 1230);
    assert_eq!(p.total_collator_stake, TotalStake { collators: 1000, delegators: 0 });
    // a second delegation of the same delegator
    p.apply_delegate(Origin::Signed(99), 30, 6, true).unwrap();
    let d = p.delegators.get(&99).unwrap();
    assert_eq!(d.total, 46);
    assert_eq!(d.delegations.len(), 2);
}

#[test]
fn apply_delegate_refusals() {
    let mut p = four_candidates();
    assert_eq!(p.apply_delegate(Origin::Root, 20, 7, true), Err(DispatchError::BadOrigin));
    assert_eq!(p.apply_delegate(Origin::Signed(99), 20, 7, false), Err(module(Error::InsufficientBalance)));
    assert_eq!(p.apply_delegate(Origin::Signed(99), 20, 5, true), Err(module(Error::TooLowDelegatorBond)));
    assert_eq!(p.apply_delegate(Origin::Signed(10), 20, 7, true), Err(module(Error::CandidateExists)));
    assert_eq!(p.apply_delegate(Origin::Signed(99), 42, 7, true), Err(module(Error::CandidateNotExist)));
    p.candidate_pool.get_mut(&5).unwrap().leave_candidates(2);
    assert_eq!(p.apply_delegate(Origin::Signed(99), 5, 7, true), Err(module(Error::InactiveCandidate)));
    p.apply_delegate(Origin::Signed(99), 20, 7, true).unwrap();
    assert_eq!(p.apply_delegate(Origin::Signed(99), 30, 5, true), Err(module(Error::TooLowDelegation)));
    assert_eq!(p.apply_delegate(Origin::Signed(99), 20, 6, true), Err(module(Error::AlreadyDelegate)));
    p.apply_delegate(Origin::Signed(98), 10, 6, true).unwrap();
    p.apply_delegate(Origin::Signed(97), 10, 6, true).unwrap();
    // 10 has no room for a third delegator: it is reserved, not recorded
    p.apply_delegate(Origin::Signed(96), 10, 6, true).unwrap();
    assert_eq!(p.candidate_pool.get(&10).unwrap().delegators.len(), 2);
    assert_eq!(p.candidate_pool.get(&10).unwrap().total_bond, 112);
    p.apply_delegate(Origin::Signed(95), 30, 6, true).unwrap();
    assert_eq!(p.apply_delegate(Origin::Signed(95), 30, 6, true), Err(module(Error::AlreadyDelegate)));
    // a delegator backing a candidate once more through a new account fails
    // on the candidate's side
    p.delegators.remove(&95);
    assert_eq!(p.apply_delegate(Origin::Signed(95), 30, 6, true), Err(module(Error::DelegatorExistOfCandidate)));
    p.delegators.get_mut(&98).unwrap().status = DelegatorStatus::Leaving(3);
    assert_eq!(p.apply_delegate(Origin::Signed(98), 20, 6, true), Err(module(Error::InactiveDelegator)));
    p.apply_delegate(Origin::Signed(99), 10, 6, true).unwrap();
    p.config.max_candidates_per_delegator = 2;
    assert_eq!(p.apply_delegate(Origin::Signed(99), 30, 6, true), Err(module(Error::TooManydelegations)));
}

#[test]
fn refused_calls_change_nothing() {
    let mut p = four_candidates();
    let before = (top(&p), p.total_staking, p.total_collator_stake, p.candidate_pool.len());
    assert!(p.apply_candidate(Origin::Signed(10), 5, true).is_err());
    assert!(p.apply_delegate(Origin::Signed(99), 42, 7, true).is_err());
    assert!(p.set_round_length(Origin::Root, 1).is_err());
    let after = (top(&p), p.total_staking, p.total_collator_stake, p.candidate_pool.len());
    assert_eq!(before, after);
    assert!(p.delegators.is_empty());
}

#[test]
fn selected_collators_are_the_first_top_candidates_staking_enough() {
    let mut p = four_candidates();
    assert_eq!(p.selected_top_candidates(), vec![1]);
    p.set_collator_num(Origin::Root, 3).unwrap();
    assert_eq!(p.selected_top_candidates(), vec![1, 10, 5]);
    p.config.minimum_collator_stake = 100;
    assert_eq!(p.selected_top_candidates(), vec![1, 10]);
    p.set_invulnerables(Origin::Root, vec![77, 78], vec![AuthorKey::Registered; 2]).unwrap();
    assert_eq!(p.new_session(4), Some(vec![77, 78, 1, 10]));
    assert_eq!(p.assemble_collators(vec![1, 2]), vec![77, 78, 1, 2]);
}

#[test]
fn note_author_pays_a_fifth_of_the_whole_quotient() {
    let mut p = four_candidates();
    p.apply_delegate(Origin::Signed(99), 20, 7, true).unwrap();
    // 50 / 57 = 0 and 7 / 57 = 0
    assert_eq!(
        p.note_author(20),
        vec![Effect::DepositIntoExisting(20, 0), Effect::DepositIntoExisting(99, 0)]
    );
    // 100 / 100 = 1, and a fifth of 1 rounds to 0
    assert_eq!(p.note_author(10), vec![Effect::DepositIntoExisting(10, 0)]);
    assert_eq!(p.note_author(42), vec![]);
}

#[test]
fn on_initialize_starts_a_round_after_its_length() {
    let mut p = Pallet::new(config());
    assert_eq!(p.on_initialize(29), (0, vec![]));
    assert_eq!(p.round.current, 0);
    assert_eq!(p.on_initialize(30), (0, vec![Effect::Emit(Event::NewRound(30, 1))]));
    assert_eq!(p.round, RoundInfo { current: 1, first: 30, length: 30 });
    assert_eq!(p.on_initialize(31), (0, vec![]));
}

#[test]
fn getters_read_the_storage() {
    let p = four_candidates();
    assert_eq!(p.selected_candidates(), 1);
    assert_eq!(p.total(), 1230);
    assert_eq!(p.round(), RoundInfo { current: 0, first: 0, length: 30 });
    assert_eq!(p.total_collator_stake(), TotalStake { collators: 1000, delegators: 0 });
    assert_eq!(p.candidacy_bond(), 0);
    assert!(p.invulnerables().is_empty());
    assert_eq!(p.candidate_info(&20).unwrap().bond, 50);
    assert!(p.candidate_info(&21).is_none());
    assert!(p.delegator_info(&20).is_none());
    let t: Vec<u64> = p.top_candidates().iter().map(|b| b.owner).collect();
    assert_eq!(t, vec![1, 10, 5]);
}

#[test]
fn pallet_account_is_the_type_id_and_pallet_id() {
    assert_eq!(Pallet::account_id(), u64::from_le_bytes(*b"modlColl"));
}

#[test]
fn update_top_candidates_moves_the_collators_total() {
    let mut p = Pallet::new(config());
    p.set_collator_num(Origin::Root, 2).unwrap();
    p.apply_candidate(Origin::Signed(10), 100, true).unwrap();
    assert_eq!(p.total_collator_stake, TotalStake { collators: 100, delegators: 0 });
    let mut effects = vec![];
    // a top candidate among the collators: old stake off, new stake on
    let n = p.update_top_candidates(10, 100, 0, 40, 5, &mut effects);
    assert_eq!(n, 1);
    assert!(effects.is_empty());
    assert_eq!(top(&p), vec![(10, 45)]);
    assert_eq!(p.total_collator_stake, TotalStake { collators: 40, delegators: 5 });
    let _ = Bond::default();
}

#[test]
fn collators_total_follows_the_seats_once_they_are_taken() {
    let mut p = four_candidates();
    // one seat, held by 1 with its own stake only
    assert_eq!(p.total_collator_stake, TotalStake { collators: 1000, delegators: 0 });
    // a delegation to the collator moves the seat's stake
    p.apply_delegate(Origin::Signed(99), 1, 7, true).unwrap();
    assert_eq!(top(&p), vec![(1, 1007), (10, 100), (5, 70)]);
    assert_eq!(p.total_collator_stake, TotalStake { collators: 1000, delegators: 7 });
    // a delegation to a candidate beyond the seat leaves it as it was
    p.apply_delegate(Origin::Signed(98), 10, 6, true).unwrap();
    assert_eq!(p.total_collator_stake, TotalStake { collators: 1000, delegators: 7 });
}

#[test]
fn a_collator_overtaken_hands_its_seat_to_the_next() {
    let mut p = Pallet::new(config());
    p.set_collator_num(Origin::Root, 1).unwrap();
    p.apply_candidate(Origin::Signed(10), 100, true).unwrap();
    p.apply_candidate(Origin::Signed(20), 50, true).unwrap();
    assert_eq!(p.total_collator_stake, TotalStake { collators: 100, delegators: 0 });
    let mut effects = vec![];
    // 10 drops below 20: it leaves the seat and 20 takes it
    p.update_top_candidates(10, 100, 0, 30, 0, &mut effects);
    assert_eq!(top(&p), vec![(20, 50), (10, 30)]);
    assert_eq!(p.total_collator_stake, TotalStake { collators: 50, delegators: 0 });
    // 10 rises above 20 again and pushes it off the seat
    p.update_top_candidates(10, 30, 0, 80, 0, &mut effects);
    assert_eq!(top(&p), vec![(10, 80), (20, 50)]);
    assert_eq!(p.total_collator_stake, TotalStake { collators: 80, delegators: 0 });
    assert!(effects.is_empty());
    assert_eq!(p.selected_top_candidates(), vec![10]);
}

#[test]
fn entering_a_free_seat_takes_off_a_collator_that_stays() {
    let mut p = Pallet::new(config());
    p.set_collator_num(Origin::Root, 5).unwrap();
    p.apply_candidate(Origin::Signed(10), 100, true).unwrap();
    p.apply_candidate(Origin::Signed(20), 500, true).unwrap();
    // both are collators, but the total counts only 20
    assert_eq!(top(&p), vec![(20, 500), (10, 100)]);
    assert_eq!(p.total_collator_stake, TotalStake { collators: 500, delegators: 0 });
}
