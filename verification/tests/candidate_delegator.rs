use dora_pallets::collator_staking::bond::Bond;
use dora_pallets::collator_staking::types::{
    Candidate, CandidateStatus, DelegationCounter, Delegator, DelegatorStatus, RoundInfo,
    TotalStake,
};

fn amounts(d: &[Bond]) -> Vec<(u64, u128)> {
    d.iter().map(|b| (b.owner, b.amount)).collect()
}

#[test]
fn new_candidate_is_active_with_its_stake() {
    let c = Candidate::new(100, 4);
    assert_eq!(c.bond, 100);
    assert_eq!(c.total_bond, 100);
    assert!(c.delegators.is_empty());
    assert_eq!(c.delegators.capacity(), 4);
    assert!(c.is_active());
    assert!(!c.is_leaving());
    assert_eq!(CandidateStatus::default(), CandidateStatus::Active);
}

#[test]
fn leaving_candidate_can_exit_from_its_round_and_revert() {
    let mut c = Candidate::new(1, 1);
    c.leave_candidates(7);
    assert_eq!(c.status, CandidateStatus::Leaving(7));
    assert!(c.is_leaving());
    assert!(!c.can_exit(6));
    assert!(c.can_exit(7));
    assert!(c.can_exit(8));
    c.revert_leaving();
    assert!(c.is_active());
    assert!(!c.can_exit(100));
}

#[test]
fn stake_more_saturates() {
    let mut c = Candidate::new(10, 1);
    c.stake_more(5);
    assert_eq!((c.bond, c.total_bond), (15, 15));
    c.stake_more(u128::MAX);
    assert_eq!((c.bond, c.total_bond), (u128::MAX, u128::MAX));
}

#[test]
fn stake_less_refuses_to_take_the_whole_stake() {
    let mut c = Candidate::new(10, 1);
    assert_eq!(c.stake_less(4), Some(6));
    assert_eq!((c.bond, c.total_bond), (6, 6));
    assert_eq!(c.stake_less(6), None);
    assert_eq!(c.stake_less(60), None);
    assert_eq!((c.bond, c.total_bond), (6, 6));
}

#[test]
fn inc_and_dec_delegator_move_the_total() {
    let mut c = Candidate::new(100, 4);
    c.delegators.try_insert(Bond { owner: 3, amount: 20 }).unwrap();
    c.total_bond = 120;
    c.inc_delegator(3, 5);
    assert_eq!(amounts(&c.delegators.to_vec()), vec![(3, 25)]);
    assert_eq!(c.total_bond, 125);
    c.dec_delegator(3, 10);
    assert_eq!(amounts(&c.delegators.to_vec()), vec![(3, 15)]);
    assert_eq!(c.total_bond, 115);
    // the total keeps backing = bond + delegations while the decrease fits
    assert_eq!(c.total_bond, c.bond + 15);
    // an unknown delegator changes nothing
    c.inc_delegator(4, 5);
    c.dec_delegator(4, 5);
    assert_eq!(c.total_bond, 115);
    // a decrease beyond the delegation: the delegation stops at zero and
    // the total drops by what it lost
    c.dec_delegator(3, 40);
    assert_eq!(amounts(&c.delegators.to_vec()), vec![(3, 0)]);
    assert_eq!(c.total_bond, 100);
    assert_eq!(c.total_bond, c.bond);
}

#[test]
fn new_delegator_needs_room_for_one_delegation() {
    assert!(Delegator::new(1, 10, 0).is_err());
    let d = Delegator::new(1, 10, 2).unwrap();
    assert_eq!(amounts(&d.delegations.to_vec()), vec![(1, 10)]);
    assert_eq!(d.total, 10);
    assert!(d.is_active());
    assert!(!d.is_leaving());
}

#[test]
fn add_delegation_refuses_a_second_delegation_to_one_candidate() {
    let mut d = Delegator::new(1, 10, 2).unwrap();
    assert!(d.add_delegation(Bond { owner: 5, amount: 4 }));
    assert_eq!(d.total, 14);
    assert!(!d.add_delegation(Bond { owner: 5, amount: 9 }));
    assert_eq!(d.total, 14);
    // full
    assert!(!d.add_delegation(Bond { owner: 6, amount: 9 }));
    assert_eq!(amounts(&d.delegations.to_vec()), vec![(1, 10), (5, 4)]);
}

#[test]
fn rm_delegation_returns_the_remaining_total() {
    let mut d = Delegator::new(1, 10, 3).unwrap();
    d.add_delegation(Bond { owner: 5, amount: 4 });
    assert_eq!(d.rm_delegation(&5), Some(10));
    assert_eq!(d.rm_delegation(&5), None);
    assert_eq!(d.total, 10);
}

#[test]
fn inc_and_dec_delegation() {
    let mut d = Delegator::new(1, 10, 3).unwrap();
    assert_eq!(d.inc_delegation(1, 5), Some(15));
    assert_eq!(d.total, 15);
    assert_eq!(d.inc_delegation(2, 5), None);
    assert_eq!(d.dec_delegation(1, 3), Some(Some(12)));
    assert_eq!(d.total, 12);
    assert_eq!(d.dec_delegation(1, 12), Some(None));
    assert_eq!(d.dec_delegation(2, 1), None);
    assert_eq!(d.total, 12);
    d.status = DelegatorStatus::Leaving(3);
    assert!(d.is_leaving());
}

#[test]
fn a_raised_delegation_moves_ahead() {
    let mut d = Delegator::new(1, 10, 3).unwrap();
    d.add_delegation(Bond { owner: 5, amount: 4 });
    assert_eq!(amounts(&d.delegations.to_vec()), vec![(1, 10), (5, 4)]);
    assert_eq!(d.inc_delegation(5, 20), Some(24));
    assert_eq!(amounts(&d.delegations.to_vec()), vec![(5, 24), (1, 10)]);
    assert_eq!(d.total, 34);
    assert_eq!(d.dec_delegation(5, 20), Some(Some(4)));
    assert_eq!(amounts(&d.delegations.to_vec()), vec![(1, 10), (5, 4)]);
    assert_eq!(d.total, 14);
    let mut c = Candidate::new(100, 3);
    c.delegators.try_insert(Bond { owner: 3, amount: 20 }).unwrap();
    c.delegators.try_insert(Bond { owner: 4, amount: 10 }).unwrap();
    c.total_bond = 130;
    c.inc_delegator(4, 15);
    assert_eq!(amounts(&c.delegators.to_vec()), vec![(4, 25), (3, 20)]);
    assert_eq!(c.total_bond, 145);
}

#[test]
fn round_updates_after_its_length() {
    let r = RoundInfo::default();
    assert_eq!(r, RoundInfo { current: 0, first: 0, length: 30 });
    assert!(!r.should_update(29));
    assert!(r.should_update(30));
    let mut later = RoundInfo::new(4, 100, 10);
    // a block before the round's first counts as none
    assert!(!later.should_update(50));
    later.update(110);
    assert_eq!(later, RoundInfo { current: 5, first: 110, length: 10 });
    assert!(!later.should_update(110));
    let mut last = RoundInfo::new(u32::MAX, 0, 0);
    assert!(last.should_update(0));
    last.update(9);
    assert_eq!(last.current, u32::MAX);
}

#[test]
fn defaults_are_zero() {
    assert_eq!(DelegationCounter::default(), DelegationCounter { round: 0, counter: 0 });
    assert_eq!(TotalStake::default(), TotalStake { collators: 0, delegators: 0 });
}
