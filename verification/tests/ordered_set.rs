use dora_pallets::collator_staking::bond::Bond;
use dora_pallets::collator_staking::set::OrderedSet;

fn bond(owner: u64, amount: u128) -> Bond {
    Bond { owner, amount }
}

fn pairs(v: &[Bond]) -> Vec<(u64, u128)> {
    v.iter().map(|b| (b.owner, b.amount)).collect()
}

fn owners(set: &OrderedSet) -> Vec<u64> {
    set.to_vec().iter().map(|b| b.owner).collect()
}

#[test]
fn bonds_compare_by_owner_only() {
    assert!(bond(1, 5) == bond(1, 6));
    assert!(bond(1, 5) != bond(2, 5));
    assert!(bond(1, 99) < bond(2, 0));
    assert!(bond(3, 0) > bond(2, 99));
    assert_eq!(bond(4, 1).partial_cmp(&bond(4, 2)), Some(std::cmp::Ordering::Equal));
    let d = Bond::default();
    assert_eq!((d.owner, d.amount), (0, 0));
    let f = Bond::from_owner(7);
    assert_eq!((f.owner, f.amount), (7, 0));
}

#[test]
fn try_insert_keeps_greatest_stake_first() {
    let mut set = OrderedSet::new(5);
    assert_eq!(set.try_insert(bond(5, 1)), Ok(true));
    assert_eq!(set.try_insert(bond(9, 2)), Ok(true));
    assert_eq!(set.try_insert(bond(1, 3)), Ok(true));
    assert_eq!(owners(&set), vec![1, 9, 5]);
    // equal stakes: the greater account first
    assert_eq!(set.try_insert(bond(4, 2)), Ok(true));
    assert_eq!(pairs(&set.to_vec()), vec![(1, 3), (9, 2), (4, 2), (5, 1)]);
    assert_eq!(set.len(), 4);
    assert_eq!(set.capacity(), 5);
}

#[test]
fn try_insert_refuses_a_held_owner_whatever_the_amount() {
    let mut set = OrderedSet::new(5);
    set.try_insert(bond(5, 1)).unwrap();
    assert_eq!(set.try_insert(bond(5, 100)), Ok(false));
    assert_eq!(set.to_vec()[0].amount, 1);
    assert_eq!(set.len(), 1);
}

#[test]
fn try_insert_refuses_when_full() {
    let mut set = OrderedSet::new(1);
    set.try_insert(bond(5, 1)).unwrap();
    assert_eq!(set.try_insert(bond(6, 100)), Err(()));
    assert_eq!(owners(&set), vec![5]);
    let mut empty = OrderedSet::new(0);
    assert_eq!(empty.try_insert(bond(1, 1)), Err(()));
    assert!(empty.is_empty());
}

#[test]
fn try_insert_replace_pushes_out_the_lowest_stake() {
    let mut set = OrderedSet::new(2);
    assert_eq!(set.try_insert_replace(bond(9, 1)), Ok(None));
    assert_eq!(set.try_insert_replace(bond(5, 3)), Ok(None));
    assert_eq!(owners(&set), vec![5, 9]);
    let out = set.try_insert_replace(bond(1, 1000)).unwrap().unwrap();
    assert_eq!((out.owner, out.amount), (9, 1));
    assert_eq!(pairs(&set.to_vec()), vec![(1, 1000), (5, 3)]);
    // it does not rank above the last bond
    let refused = set.try_insert_replace(bond(3, 2)).unwrap_err();
    assert_eq!(refused.owner, 3);
    // a tie with the last bond goes by account
    assert!(set.try_insert_replace(bond(4, 3)).is_err());
    let out = set.try_insert_replace(bond(6, 3)).unwrap().unwrap();
    assert_eq!(out.owner, 5);
    // already held
    assert!(set.try_insert_replace(bond(1, 5000)).is_err());
    assert_eq!(pairs(&set.to_vec()), vec![(1, 1000), (6, 3)]);
    let mut none = OrderedSet::new(0);
    assert!(none.try_insert_replace(bond(1, 1)).is_err());
}

#[test]
fn full_set_of_one_admits_a_higher_stake() {
    let mut set = OrderedSet::new(1);
    set.try_insert_replace(bond(9, 1)).unwrap();
    let out = set.try_insert_replace(bond(1, 1000)).unwrap().unwrap();
    assert_eq!((out.owner, out.amount), (9, 1));
    assert_eq!(pairs(&set.to_vec()), vec![(1, 1000)]);
}

#[test]
fn remove_undoes_try_insert() {
    let mut set = OrderedSet::new(5);
    set.try_insert(bond(8, 1)).unwrap();
    set.try_insert(bond(2, 1)).unwrap();
    let before = pairs(&set.to_vec());
    set.try_insert(bond(4, 9)).unwrap();
    assert_eq!(set.linear_search(&bond(4, 0)), Ok(0));
    let removed = set.remove(&bond(4, 0)).unwrap();
    assert_eq!(removed.amount, 9);
    assert_eq!(pairs(&set.to_vec()), before);
    assert!(!set.contains(&bond(4, 0)));
    assert!(set.remove(&bond(4, 0)).is_none());
}

#[test]
fn linear_search_gives_index_or_insertion_point() {
    let set = OrderedSet::from(vec![bond(10, 1), bond(20, 1), bond(30, 1)], 3);
    assert_eq!(owners(&set), vec![30, 20, 10]);
    // found by its owner, whatever the amount
    assert_eq!(set.linear_search(&bond(20, 7)), Ok(1));
    // else placed by its stake
    assert_eq!(set.linear_search(&bond(25, 1)), Err(1));
    assert_eq!(set.linear_search(&bond(40, 0)), Err(3));
    assert_eq!(set.linear_search(&bond(5, 2)), Err(0));
    assert!(set.contains(&bond(30, 0)));
    assert_eq!(set.get(2).unwrap().owner, 10);
    assert!(set.get(3).is_none());
}

#[test]
fn from_sorts_and_keeps_the_first_bond_of_each_owner() {
    let set = OrderedSet::from(vec![bond(3, 10), bond(7, 1), bond(3, 99)], 3);
    let v = set.to_vec();
    assert_eq!(v.len(), 2);
    assert_eq!((v[0].owner, v[0].amount), (3, 10));
    assert_eq!((v[1].owner, v[1].amount), (7, 1));
}

#[test]
fn set_amount_moves_the_bond_to_its_place() {
    let mut set = OrderedSet::from(vec![bond(1, 1), bond(2, 2), bond(3, 3)], 4);
    assert_eq!(owners(&set), vec![3, 2, 1]);
    let before = pairs(&set.to_vec());
    set.sort_greatest_to_lowest();
    assert_eq!(pairs(&set.to_vec()), before);
    set.set_amount(2, 77);
    assert_eq!(pairs(&set.to_vec()), vec![(1, 77), (3, 3), (2, 2)]);
    set.set_amount(0, 0);
    assert_eq!(pairs(&set.to_vec()), vec![(3, 3), (2, 2), (1, 0)]);
    set.set_amount(1, 2);
    assert_eq!(pairs(&set.to_vec()), vec![(3, 3), (2, 2), (1, 0)]);
}
