use core::cmp::Ordering;
use vstd::prelude::*;

verus! {

/// A stake of `amount` held by `owner`.
///
/// Two bonds are equal, and compare, by their owner alone, as an
/// [`OrderedSet`](super::set::OrderedSet) looks a bond up by its owner; the
/// set itself keeps its bonds by stake (see
/// [`ranks_above`](super::set::ranks_above)).
#[derive(Clone, Copy, Debug)]
pub struct Bond {
    pub owner: u64,
    pub amount: u128,
}

impl Bond {
    /// A bond of `owner` with a zero amount.
    pub fn from_owner(owner: u64) -> (r: Bond)
        ensures
            r.owner == owner,
            r.amount == 0,
    {
        Bond { owner, amount: 0 }
    }
}

impl PartialEq for Bond {
    fn eq(&self, other: &Self) -> (r: bool) {
        self.owner == other.owner
    }
}

impl vstd::std_specs::cmp::PartialEqSpecImpl for Bond {
    open spec fn obeys_eq_spec() -> bool {
        true
    }

    open spec fn eq_spec(&self, other: &Self) -> bool {
        self.owner == other.owner
    }
}

impl Eq for Bond {
}

impl PartialOrd for Bond {
    fn partial_cmp(&self, other: &Self) -> (r: Option<Ordering>) {
        if self.owner < other.owner {
            Some(Ordering::Less)
        } else if self.owner == other.owner {
            Some(Ordering::Equal)
        } else {
            Some(Ordering::Greater)
        }
    }
}

impl vstd::std_specs::cmp::PartialOrdSpecImpl for Bond {
    open spec fn obeys_partial_cmp_spec() -> bool {
        true
    }

    open spec fn partial_cmp_spec(&self, other: &Self) -> Option<Ordering> {
        if self.owner < other.owner {
            Some(Ordering::Less)
        } else if self.owner == other.owner {
            Some(Ordering::Equal)
        } else {
            Some(Ordering::Greater)
        }
    }
}

impl Default for Bond {
    /// The bond of the all-zero account with a zero amount.
    fn default() -> (r: Bond)
        ensures
            r.owner == 0,
            r.amount == 0,
    {
        Bond { owner: 0, amount: 0 }
    }
}

} // verus!
