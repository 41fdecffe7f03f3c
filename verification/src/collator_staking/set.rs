use vstd::prelude::*;

use crate::collator_staking::bond::Bond;

verus! {

/// `a` ranks above `b`: it stakes more, or as much with a greater owner.
pub open spec fn ranks_above(a: Bond, b: Bond) -> bool {
    a.amount > b.amount || (a.amount == b.amount && a.owner > b.owner)
}

/// The bonds of `s` go from the greatest stake to the lowest, bonds of
/// equal stake from the greatest owner to the lowest, and no owner occurs
/// twice.
pub open spec fn descending(s: Seq<Bond>) -> bool {
    &&& forall|i: int, j: int|
        #![trigger s[i], s[j]]
        0 <= i < j < s.len() ==> ranks_above(s[i], s[j])
    &&& forall|i: int, j: int|
        #![trigger s[i], s[j]]
        0 <= i < s.len() && 0 <= j < s.len() && i != j ==> s[i].owner != s[j].owner
}

/// The index at which `b` would stand in `s`: the number of leading bonds
/// that rank above it.
pub open spec fn position_of(s: Seq<Bond>, b: Bond) -> nat
    decreases s.len(),
{
    if s.len() == 0 {
        0
    } else if ranks_above(s[0], b) {
        1 + position_of(s.drop_first(), b)
    } else {
        0
    }
}

/// The index of the first bond of `owner` in `s`, or its length when there
/// is none.
pub open spec fn index_of(s: Seq<Bond>, owner: u64) -> nat
    decreases s.len(),
{
    if s.len() == 0 {
        0
    } else if s[0].owner == owner {
        0
    } else {
        1 + index_of(s.drop_first(), owner)
    }
}

/// `s` holds a bond of `owner`.
pub open spec fn holds_owner(s: Seq<Bond>, owner: u64) -> bool {
    index_of(s, owner) < s.len()
}

/// The result of searching `s` for the owner of `b`: `Ok` with the index of
/// its bond, or `Err` with the index at which `b` would be inserted.
pub open spec fn search(s: Seq<Bond>, b: Bond) -> Result<int, int> {
    if holds_owner(s, b.owner) {
        Ok(index_of(s, b.owner) as int)
    } else {
        Err(position_of(s, b) as int)
    }
}

/// `s` with `b` inserted at its place.
pub open spec fn inserted(s: Seq<Bond>, b: Bond) -> Seq<Bond> {
    s.insert(position_of(s, b) as int, b)
}

/// `s` with the bond at index `i` taking the stake `amount`, moved to its
/// place.
pub open spec fn restaked(s: Seq<Bond>, i: int, amount: u128) -> Seq<Bond> {
    inserted(s.remove(i), Bond { owner: s[i].owner, amount })
}

/// The set made of the bonds of `s` taken in turn, where a bond whose owner
/// is already held is dropped (the first bond of each owner stays).
pub open spec fn collected(s: Seq<Bond>) -> Seq<Bond>
    decreases s.len(),
{
    if s.len() == 0 {
        Seq::empty()
    } else {
        let r = collected(s.drop_last());
        if holds_owner(r, s.last().owner) {
            r
        } else {
            inserted(r, s.last())
        }
    }
}

/// The first bond of a descending sequence goes, the rest stays descending.
proof fn lemma_drop_first_descending(s: Seq<Bond>)
    requires
        descending(s),
        s.len() > 0,
    ensures
        descending(s.drop_first()),
{
    let t = s.drop_first();
    assert forall|i: int, j: int| 0 <= i < j < t.len() implies ranks_above(t[i], t[j]) by {
        assert(t[i] == s[i + 1] && t[j] == s[j + 1]);
    }
    assert forall|i: int, j: int|
        0 <= i < t.len() && 0 <= j < t.len() && i != j implies t[i].owner != t[j].owner by {
        assert(t[i] == s[i + 1] && t[j] == s[j + 1]);
    }
}

/// In a descending sequence, `position_of` splits the bonds into those
/// that rank above `b` and those that do not.
pub proof fn lemma_position_of(s: Seq<Bond>, b: Bond)
    requires
        descending(s),
    ensures
        position_of(s, b) <= s.len(),
        forall|j: int| 0 <= j < position_of(s, b) ==> ranks_above(#[trigger] s[j], b),
        forall|j: int| position_of(s, b) <= j < s.len() ==> !ranks_above(#[trigger] s[j], b),
    decreases s.len(),
{
    if s.len() > 0 {
        let t = s.drop_first();
        lemma_drop_first_descending(s);
        lemma_position_of(t, b);
        if ranks_above(s[0], b) {
            assert forall|j: int| 0 <= j < position_of(s, b) implies ranks_above(#[trigger] s[j], b) by {
                if j > 0 {
                    assert(s[j] == t[j - 1]);
                }
            }
            assert forall|j: int| position_of(s, b) <= j < s.len() implies !ranks_above(
                #[trigger] s[j],
                b,
            ) by {
                assert(s[j] == t[j - 1]);
            }
        } else {
            assert forall|j: int| 0 <= j < s.len() implies !ranks_above(#[trigger] s[j], b) by {
                if j > 0 {
                    assert(ranks_above(s[0], s[j]));
                }
            }
        }
    }
}

/// `index_of` finds the first bond of `owner`.
pub proof fn lemma_index_of(s: Seq<Bond>, owner: u64)
    ensures
        index_of(s, owner) <= s.len(),
        forall|j: int| 0 <= j < index_of(s, owner) ==> #[trigger] s[j].owner != owner,
        index_of(s, owner) < s.len() ==> s[index_of(s, owner) as int].owner == owner,
        holds_owner(s, owner) <==> exists|j: int| 0 <= j < s.len() && #[trigger] s[j].owner == owner,
    decreases s.len(),
{
    if s.len() > 0 && s[0].owner != owner {
        let t = s.drop_first();
        lemma_index_of(t, owner);
        assert forall|j: int| 0 <= j < index_of(s, owner) implies #[trigger] s[j].owner != owner by {
            if j > 0 {
                assert(s[j] == t[j - 1]);
            }
        }
        if index_of(s, owner) < s.len() {
            assert(s[index_of(s, owner) as int] == t[index_of(t, owner) as int]);
        }
        if exists|j: int| 0 <= j < s.len() && #[trigger] s[j].owner == owner {
            let j = choose|j: int| 0 <= j < s.len() && #[trigger] s[j].owner == owner;
            assert(t[j - 1] == s[j]);
        }
    }
}

/// In a descending sequence the bond of an owner is the only one of it.
pub proof fn lemma_index_of_unique(s: Seq<Bond>, j: int)
    requires
        descending(s),
        0 <= j < s.len(),
    ensures
        index_of(s, s[j].owner) == j,
{
    lemma_index_of(s, s[j].owner);
    let k = index_of(s, s[j].owner) as int;
    if k != j {
        assert(s[k].owner != s[j].owner);
    }
}

/// Inserting a bond of an owner that is not held keeps a sequence
/// descending, and the bond is then found where it was inserted.
pub proof fn lemma_inserted_descending(s: Seq<Bond>, b: Bond)
    requires
        descending(s),
        !holds_owner(s, b.owner),
    ensures
        position_of(s, b) <= s.len(),
        descending(inserted(s, b)),
        inserted(s, b).len() == s.len() + 1,
        inserted(s, b)[position_of(s, b) as int] == b,
        holds_owner(inserted(s, b), b.owner),
        index_of(inserted(s, b), b.owner) == position_of(s, b),
{
    lemma_position_of(s, b);
    lemma_index_of(s, b.owner);
    let p = position_of(s, b) as int;
    let r = inserted(s, b);
    assert forall|j: int| 0 <= j < s.len() implies #[trigger] s[j].owner != b.owner by {}
    assert forall|i: int, j: int| 0 <= i < j < r.len() implies ranks_above(r[i], r[j]) by {
        if j < p {
            assert(r[i] == s[i] && r[j] == s[j]);
        } else if j == p {
            assert(r[i] == s[i]);
        } else if i < p {
            assert(r[i] == s[i] && r[j] == s[j - 1]);
        } else if i == p {
            assert(r[j] == s[j - 1]);
            assert(!ranks_above(s[j - 1], b));
        } else {
            assert(r[i] == s[i - 1] && r[j] == s[j - 1]);
        }
    }
    assert forall|i: int, j: int|
        0 <= i < r.len() && 0 <= j < r.len() && i != j implies r[i].owner != r[j].owner by {
        let si = if i < p {
            i
        } else {
            i - 1
        };
        let sj = if j < p {
            j
        } else {
            j - 1
        };
        if i != p && j != p {
            assert(r[i] == s[si] && r[j] == s[sj]);
        } else if i == p {
            assert(r[j] == s[sj]);
        } else {
            assert(r[i] == s[si]);
        }
    }
    assert(r[p] == b);
    lemma_index_of_unique(r, p);
}

/// Dropping a bond keeps a sequence descending.
pub proof fn lemma_removed_descending(s: Seq<Bond>, k: int)
    requires
        descending(s),
        0 <= k < s.len(),
    ensures
        descending(s.remove(k)),
        !holds_owner(s.remove(k), s[k].owner),
{
    let r = s.remove(k);
    assert forall|i: int, j: int| 0 <= i < j < r.len() implies ranks_above(r[i], r[j]) by {
        if j < k {
            assert(r[i] == s[i] && r[j] == s[j]);
        } else if i < k {
            assert(r[i] == s[i] && r[j] == s[j + 1]);
        } else {
            assert(r[i] == s[i + 1] && r[j] == s[j + 1]);
        }
    }
    assert forall|i: int, j: int|
        0 <= i < r.len() && 0 <= j < r.len() && i != j implies r[i].owner != r[j].owner by {
        let si = if i < k {
            i
        } else {
            i + 1
        };
        let sj = if j < k {
            j
        } else {
            j + 1
        };
        assert(r[i] == s[si] && r[j] == s[sj]);
    }
    lemma_index_of(r, s[k].owner);
    if holds_owner(r, s[k].owner) {
        let j = choose|j: int| 0 <= j < r.len() && #[trigger] r[j].owner == s[k].owner;
        if j < k {
            assert(r[j] == s[j]);
        } else {
            assert(r[j] == s[j + 1]);
        }
    }
}

/// Giving a bond a new stake and moving it to its place keeps a sequence
/// descending, of the same length, with the bond found at its new place.
pub proof fn lemma_restaked(s: Seq<Bond>, i: int, amount: u128)
    requires
        descending(s),
        0 <= i < s.len(),
    ensures
        descending(restaked(s, i, amount)),
        restaked(s, i, amount).len() == s.len(),
        position_of(s.remove(i), Bond { owner: s[i].owner, amount }) < s.len(),
        index_of(restaked(s, i, amount), s[i].owner) == position_of(
            s.remove(i),
            Bond { owner: s[i].owner, amount },
        ),
        restaked(s, i, amount)[index_of(restaked(s, i, amount), s[i].owner) as int] == (Bond {
            owner: s[i].owner,
            amount,
        }),
{
    lemma_removed_descending(s, i);
    lemma_inserted_descending(s.remove(i), Bond { owner: s[i].owner, amount });
}

/// When the last bond goes, the place of `b` before it stays.
pub proof fn lemma_position_without_last(s: Seq<Bond>, b: Bond)
    requires
        descending(s),
        position_of(s, b) < s.len(),
    ensures
        descending(s.drop_last()),
        position_of(s.drop_last(), b) == position_of(s, b),
        holds_owner(s.drop_last(), b.owner) ==> holds_owner(s, b.owner),
{
    let d = s.drop_last();
    lemma_removed_descending(s, s.len() - 1);
    assert(s.remove(s.len() - 1) =~= d);
    lemma_position_of(s, b);
    lemma_position_of(d, b);
    let p = position_of(s, b) as int;
    let q = position_of(d, b) as int;
    if q < p {
        assert(d[q] == s[q]);
    }
    if p < q {
        assert(d[p] == s[p]);
    }
    if holds_owner(d, b.owner) {
        lemma_index_of(d, b.owner);
        lemma_index_of(s, b.owner);
        let j = index_of(d, b.owner) as int;
        assert(d[j] == s[j]);
    }
}

/// A full set admits a bond of a new owner within its bound exactly when it
/// ranks above the last bond.
pub proof fn law_place_within_bound_iff_outranks_last(s: Seq<Bond>, b: Bond)
    requires
        descending(s),
        s.len() > 0,
        !holds_owner(s, b.owner),
    ensures
        position_of(s, b) < s.len() <==> ranks_above(b, s.last()),
{
    lemma_position_of(s, b);
    lemma_index_of(s, b.owner);
    assert(s.last() == s[s.len() - 1]);
    assert(s[s.len() - 1].owner != b.owner);
    if ranks_above(b, s.last()) {
        assert(!ranks_above(s[s.len() - 1], b));
    }
}

/// Removing the bond that was just inserted undoes the insertion: the
/// inserted bond is found at its place, and the set without it is the set
/// before.
pub proof fn law_remove_undoes_insert(s: Seq<Bond>, b: Bond)
    requires
        descending(s),
        !holds_owner(s, b.owner),
    ensures
        search(inserted(s, b), b) == Ok::<int, int>(position_of(s, b) as int),
        inserted(s, b).remove(position_of(s, b) as int) == s,
{
    lemma_inserted_descending(s, b);
    let p = position_of(s, b) as int;
    assert(inserted(s, b).remove(p) =~= s);
}

/// Once its bond is removed, an owner is no longer held.
pub proof fn law_removed_owner_not_held(s: Seq<Bond>, owner: u64)
    requires
        descending(s),
        holds_owner(s, owner),
    ensures
        !holds_owner(s.remove(index_of(s, owner) as int), owner),
{
    lemma_index_of(s, owner);
    lemma_removed_descending(s, index_of(s, owner) as int);
}

/// The set collected from a sequence is descending and holds a bond of
/// every owner of the sequence, and no more bonds than the sequence.
pub proof fn law_collected_holds_every_owner(s: Seq<Bond>)
    ensures
        descending(collected(s)),
        collected(s).len() <= s.len(),
        forall|i: int| 0 <= i < s.len() ==> holds_owner(collected(s), #[trigger] s[i].owner),
    decreases s.len(),
{
    if s.len() > 0 {
        let t = s.drop_last();
        law_collected_holds_every_owner(t);
        let r = collected(t);
        let b = s.last();
        if !holds_owner(r, b.owner) {
            lemma_inserted_descending(r, b);
            let q = inserted(r, b);
            let p = position_of(r, b) as int;
            assert forall|i: int| 0 <= i < s.len() implies holds_owner(q, #[trigger] s[i].owner) by {
                if i < s.len() - 1 {
                    assert(s[i] == t[i]);
                    lemma_index_of(r, t[i].owner);
                    lemma_index_of(q, t[i].owner);
                    let j = index_of(r, t[i].owner) as int;
                    if j < p {
                        assert(q[j] == r[j]);
                    } else {
                        assert(q[j + 1] == r[j]);
                    }
                }
            }
        } else {
            assert forall|i: int| 0 <= i < s.len() implies holds_owner(r, #[trigger] s[i].owner) by {
                if i < s.len() - 1 {
                    assert(s[i] == t[i]);
                }
            }
        }
    }
}

/// An ordered set of bonds, kept from the greatest stake to the lowest
/// (bonds of equal stake from the greatest owner to the lowest), with at
/// most one bond per owner and at most a fixed number of bonds. A bond is
/// looked up by its owner.
#[derive(Clone, Debug)]
pub struct OrderedSet {
    items: Vec<Bond>,
    bound: u32,
}

impl View for OrderedSet {
    type V = Seq<Bond>;

    closed spec fn view(&self) -> Seq<Bond> {
        self.items@
    }
}

/// Whether `a` ranks above `b`.
fn outranks(a: &Bond, b: &Bond) -> (r: bool)
    ensures
        r == ranks_above(*a, *b),
{
    a.amount > b.amount || (a.amount == b.amount && a.owner > b.owner)
}

/// The index at which `value` would stand in the descending `items`.
fn place_of(items: &Vec<Bond>, value: &Bond) -> (p: usize)
    requires
        descending(items@),
    ensures
        p == position_of(items@, *value),
{
    proof {
        lemma_position_of(items@, *value);
    }
    let mut p: usize = 0;
    while p < items.len() && outranks(&items[p], value)
        invariant
            p <= items.len(),
            forall|j: int| 0 <= j < p ==> ranks_above(#[trigger] items@[j], *value),
        decreases items.len() - p,
    {
        p = p + 1;
    }
    proof {
        let q = position_of(items@, *value) as int;
        if q < p {
            assert(ranks_above(items@[q], *value));
        }
        if (p as int) < q {
            assert(ranks_above(items@[p as int], *value));
        }
    }
    p
}

impl OrderedSet {
    /// The most bonds the set can hold.
    pub closed spec fn bound(&self) -> nat {
        self.bound as nat
    }

    /// The bonds are descending by stake and no more than the bound.
    pub closed spec fn wf(&self) -> bool {
        &&& descending(self.items@)
        &&& self.items@.len() <= self.bound
    }

    /// What a well-formed set gives: its bonds descend by stake and are no
    /// more than its bound, which fits in a `u32`.
    pub proof fn lemma_wf(&self)
        requires
            self.wf(),
        ensures
            descending(self@),
            self@.len() <= self.bound(),
            self.bound() <= u32::MAX,
    {
    }

    /// An empty set that can hold `bound` bonds.
    pub fn new(bound: u32) -> (r: OrderedSet)
        ensures
            r.wf(),
            r@ == Seq::<Bond>::empty(),
            r.bound() == bound,
    {
        OrderedSet { items: Vec::new(), bound }
    }

    /// The set of the bonds of `items`, sorted from the greatest stake to the
    /// lowest, where of the bonds of one owner only the first stays.
    pub fn from(items: Vec<Bond>, bound: u32) -> (r: OrderedSet)
        requires
            items.len() <= bound,
        ensures
            r.wf(),
            r@ == collected(items@),
            r.bound() == bound,
    {
        let mut set = OrderedSet { items: Vec::new(), bound };
        let mut i: usize = 0;
        while i < items.len()
            invariant
                i <= items.len() <= bound,
                set.bound == bound,
                descending(set.items@),
                set.items@.len() <= i,
                set.items@ == collected(items@.subrange(0, i as int)),
            decreases items.len() - i,
        {
            let b = items[i];
            proof {
                let s = items@.subrange(0, i as int + 1);
                assert(s.drop_last() =~= items@.subrange(0, i as int));
                assert(s.last() == b);
            }
            let found = set.linear_search(&b);
            if let Err(p) = found {
                proof {
                    lemma_inserted_descending(set.items@, b);
                }
                set.items.insert(p, b);
            }
            i = i + 1;
        }
        assert(items@.subrange(0, items.len() as int) =~= items@);
        set
    }

    /// The most bonds the set can hold.
    pub fn capacity(&self) -> (r: u32)
        ensures
            r == self.bound(),
    {
        self.bound
    }

    /// The number of bonds in the set.
    pub fn len(&self) -> (r: usize)
        ensures
            r == self@.len(),
    {
        self.items.len()
    }

    /// Whether the set holds no bond.
    pub fn is_empty(&self) -> (r: bool)
        ensures
            r == (self@.len() == 0),
    {
        self.items.len() == 0
    }

    /// The bond at `index`, if there is one.
    pub fn get(&self, index: usize) -> (r: Option<Bond>)
        ensures
            index < self@.len() ==> r == Some(self@[index as int]),
            index >= self@.len() ==> r is None,
    {
        if index < self.items.len() {
            Some(self.items[index])
        } else {
            None
        }
    }

    /// The bonds of the set, from the greatest stake to the lowest.
    pub fn to_vec(&self) -> (r: Vec<Bond>)
        ensures
            r@ == self@,
    {
        let mut r: Vec<Bond> = Vec::new();
        let mut i: usize = 0;
        while i < self.items.len()
            invariant
                i <= self.items.len(),
                r@ == self.items@.subrange(0, i as int),
            decreases self.items.len() - i,
        {
            r.push(self.items[i]);
            i = i + 1;
            assert(r@ =~= self.items@.subrange(0, i as int));
        }
        assert(r@ =~= self.items@);
        r
    }

    /// Searches the set for a bond with the owner of `value`: `Ok` with its
    /// index if there is one, else `Err` with the index at which `value`
    /// would be inserted by its stake.
    pub fn linear_search(&self, value: &Bond) -> (r: Result<usize, usize>)
        requires
            self.wf(),
        ensures
            match r {
                Ok(i) => search(self@, *value) == Ok::<int, int>(i as int),
                Err(i) => search(self@, *value) == Err::<int, int>(i as int),
            },
    {
        proof {
            lemma_index_of(self.items@, value.owner);
        }
        let mut i: usize = 0;
        while i < self.items.len()
            invariant
                i <= self.items.len(),
                forall|j: int| 0 <= j < i ==> #[trigger] self.items@[j].owner != value.owner,
            decreases self.items.len() - i,
        {
            if self.items[i].owner == value.owner {
                proof {
                    lemma_index_of(self.items@, value.owner);
                    let k = index_of(self.items@, value.owner) as int;
                    if k < i {
                        assert(self.items@[k].owner != value.owner);
                    }
                    if k > i {
                        assert(self.items@[i as int].owner != value.owner);
                    }
                }
                return Ok(i);
            }
            i = i + 1;
        }
        Err(place_of(&self.items, value))
    }

    /// Whether the set holds a bond with the owner of `value`.
    pub fn contains(&self, value: &Bond) -> (r: bool)
        requires
            self.wf(),
        ensures
            r == holds_owner(self@, value.owner),
    {
        self.linear_search(value).is_ok()
    }

    /// Inserts `value` at its place if no bond of its owner is held. `Err`
    /// if the set is full, `Ok(false)` if a bond of the owner is held (the
    /// set is left as it was in both cases), `Ok(true)` once inserted.
    pub fn try_insert(&mut self, value: Bond) -> (r: Result<bool, ()>)
        requires
            old(self).wf(),
        ensures
            final(self).wf(),
            final(self).bound() == old(self).bound(),
            old(self)@.len() >= old(self).bound() ==> r == Err::<bool, ()>(()) && final(self)@
                == old(self)@,
            old(self)@.len() < old(self).bound() && holds_owner(old(self)@, value.owner) ==> r
                == Ok::<bool, ()>(false) && final(self)@ == old(self)@,
            old(self)@.len() < old(self).bound() && !holds_owner(old(self)@, value.owner) ==> r
                == Ok::<bool, ()>(true) && final(self)@ == inserted(old(self)@, value),
    {
        if self.items.len() >= self.bound as usize {
            return Err(());
        }
        match self.linear_search(&value) {
            Ok(_) => Ok(false),
            Err(p) => {
                proof {
                    lemma_inserted_descending(self.items@, value);
                }
                self.items.insert(p, value);
                Ok(true)
            },
        }
    }

    /// Inserts `value` if no bond of its owner is held and its place is
    /// within the bound: when the set is full, `value` must rank above the
    /// last bond, which then leaves to make room and is returned.
    /// `Err(value)` when `value` cannot enter, and the set is then left as it
    /// was.
    pub fn try_insert_replace(&mut self, value: Bond) -> (r: Result<Option<Bond>, Bond>)
        requires
            old(self).wf(),
        ensures
            final(self).wf(),
            final(self).bound() == old(self).bound(),
            ({
                let s = old(self)@;
                let p = position_of(s, value) as int;
                if old(self).bound() == 0 || holds_owner(s, value.owner) || p > old(self).bound()
                    - 1 {
                    r == Err::<Option<Bond>, Bond>(value) && final(self)@ == s
                } else if s.len() >= old(self).bound() {
                    r == Ok::<Option<Bond>, Bond>(Some(s.last())) && final(self)@
                        == s.drop_last().insert(p, value)
                } else {
                    r == Ok::<Option<Bond>, Bond>(None) && final(self)@ == inserted(s, value)
                }
            }),
    {
        if self.bound == 0 {
            return Err(value);
        }
        let highest_index: usize = (self.bound - 1) as usize;
        match self.linear_search(&value) {
            Ok(_) => Err(value),
            Err(p) => {
                if p > highest_index {
                    return Err(value);
                }
                if self.items.len() >= self.bound as usize {
                    let ghost s = self.items@;
                    let last = self.items.pop().unwrap();
                    proof {
                        lemma_position_without_last(s, value);
                        lemma_inserted_descending(s.drop_last(), value);
                    }
                    self.items.insert(p, value);
                    Ok(Some(last))
                } else {
                    proof {
                        lemma_inserted_descending(self.items@, value);
                    }
                    self.items.insert(p, value);
                    Ok(None)
                }
            },
        }
    }

    /// Removes the bond with the owner of `value` (its amount plays no part)
    /// and returns it; `None` if no bond of that owner is held.
    pub fn remove(&mut self, value: &Bond) -> (r: Option<Bond>)
        requires
            old(self).wf(),
        ensures
            final(self).wf(),
            final(self).bound() == old(self).bound(),
            ({
                let s = old(self)@;
                let i = index_of(s, value.owner) as int;
                if holds_owner(s, value.owner) {
                    r == Some(s[i]) && final(self)@ == s.remove(i)
                } else {
                    r is None && final(self)@ == s
                }
            }),
    {
        match self.linear_search(value) {
            Ok(i) => {
                proof {
                    lemma_removed_descending(self.items@, i as int);
                }
                Some(self.items.remove(i))
            },
            Err(_) => None,
        }
    }

    /// Gives the bond at `index` the stake `amount` and moves it to its
    /// place, so that the set stays descending.
    pub fn set_amount(&mut self, index: usize, amount: u128)
        requires
            old(self).wf(),
            index < old(self)@.len(),
        ensures
            final(self).wf(),
            final(self).bound() == old(self).bound(),
            final(self)@ == restaked(old(self)@, index as int, amount),
    {
        let ghost s = self.items@;
        let owner = self.items[index].owner;
        let b = Bond { owner, amount };
        self.items.remove(index);
        proof {
            lemma_removed_descending(s, index as int);
            lemma_inserted_descending(s.remove(index as int), b);
        }
        let p = place_of(&self.items, &b);
        self.items.insert(p, b);
    }

    /// Sorts the bonds from the greatest stake to the lowest, by insertion.
    /// A set is always kept in that order, so its bonds stay as they are.
    pub fn sort_greatest_to_lowest(&mut self)
        requires
            old(self).wf(),
        ensures
            final(self).wf(),
            final(self).bound() == old(self).bound(),
            final(self)@ == old(self)@,
    {
        let mut sorted: Vec<Bond> = Vec::new();
        let mut i: usize = 0;
        while i < self.items.len()
            invariant
                i <= self.items.len(),
                descending(self.items@),
                sorted@ == self.items@.subrange(0, i as int),
            decreases self.items.len() - i,
        {
            let b = self.items[i];
            let mut p: usize = 0;
            while p < sorted.len() && outranks(&sorted[p], &b)
                invariant
                    p <= sorted.len(),
                    sorted@ == self.items@.subrange(0, i as int),
                    i < self.items.len(),
                    b == self.items@[i as int],
                decreases sorted.len() - p,
            {
                p = p + 1;
            }
            proof {
                if p < sorted.len() {
                    assert(sorted@[p as int] == self.items@[p as int]);
                    assert(ranks_above(self.items@[p as int], self.items@[i as int]));
                }
            }
            sorted.insert(p, b);
            i = i + 1;
            assert(sorted@ =~= self.items@.subrange(0, i as int));
        }
        assert(sorted@ =~= self.items@);
        self.items = sorted;
    }
}

} // verus!
