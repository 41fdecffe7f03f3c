//! The collators' total stake against the collator seats: the first
//! `collator_nums` top candidates, which hold the highest stakes.
use vstd::prelude::*;

use crate::collator_staking::bond::Bond;
use crate::collator_staking::set::{
    descending, holds_owner, index_of, lemma_index_of, lemma_position_of,
    lemma_removed_descending, lemma_restaked, position_of, restaked,
};
use crate::collator_staking::top_update;
use crate::collator_staking::types::{sat_add, Candidate, TotalStake};

verus! {

/// What a top candidate counts toward the collators' total, as its own
/// stake and its delegated stake: `own` and `delegated` for `candidate`,
/// the pool's bond and backing beyond it for another account in the pool,
/// nothing for an account out of the pool.
pub open spec fn seat_stake(
    b: Bond,
    pool: Map<u64, Candidate>,
    candidate: u64,
    own: u128,
    delegated: u128,
) -> (int, int) {
    if b.owner == candidate {
        (own as int, delegated as int)
    } else if pool.contains_key(b.owner) {
        let c = pool[b.owner];
        (c.bond as int, ((c.total_bond - c.bond) as u128) as int)
    } else {
        (0, 0)
    }
}

/// The sum of what the bonds of `s` count toward the collators' total.
pub open spec fn seats_stake(
    s: Seq<Bond>,
    pool: Map<u64, Candidate>,
    candidate: u64,
    own: u128,
    delegated: u128,
) -> (int, int)
    decreases s.len(),
{
    if s.len() == 0 {
        (0, 0)
    } else {
        let r = seats_stake(s.drop_last(), pool, candidate, own, delegated);
        let x = seat_stake(s.last(), pool, candidate, own, delegated);
        (r.0 + x.0, r.1 + x.1)
    }
}

/// The collator seats: the first `collator_nums` top candidates.
pub open spec fn collator_seats(top: Seq<Bond>, collator_nums: u32) -> Seq<Bond> {
    top.take(
        if collator_nums < top.len() {
            collator_nums as int
        } else {
            top.len() as int
        },
    )
}

/// A bond of `candidate` with the new stake `stake` enters the top
/// candidates onto a collator seat while a seat is free, or while the set
/// is full with no candidate beyond the seats: the change of stake then
/// takes off the stake of a candidate that stays a collator (or of the
/// entering one itself).
pub open spec fn fills_free_seat(top: Seq<Bond>, bound: nat, collator_nums: u32, stake: Bond) -> bool {
    let p = position_of(top, stake);
    &&& !holds_owner(top, stake.owner)
    &&& bound > 0
    &&& p < bound
    &&& p < collator_nums
    &&& !(top.len() > collator_nums || (top.len() == collator_nums && top.len() < bound))
}

/// Every top candidate other than `candidate` is in the pool.
pub open spec fn others_in_pool(top: Seq<Bond>, pool: Map<u64, Candidate>, candidate: u64) -> bool {
    forall|x: int|
        0 <= x < top.len() && #[trigger] top[x].owner != candidate ==> pool.contains_key(
            top[x].owner,
        )
}

/// The collators' total is what the collator seats count.
pub open spec fn total_is_seats(
    total: TotalStake,
    top: Seq<Bond>,
    collator_nums: u32,
    pool: Map<u64, Candidate>,
    candidate: u64,
    own: u128,
    delegated: u128,
) -> bool {
    (total.collators as int, total.delegators as int) == seats_stake(
        collator_seats(top, collator_nums),
        pool,
        candidate,
        own,
        delegated,
    )
}

/// What the collator seats count after the update fits in a `u128`.
pub open spec fn seats_fit(
    top: Seq<Bond>,
    collator_nums: u32,
    pool: Map<u64, Candidate>,
    candidate: u64,
    own: u128,
    delegated: u128,
) -> bool {
    let s = seats_stake(collator_seats(top, collator_nums), pool, candidate, own, delegated);
    s.0 <= u128::MAX && s.1 <= u128::MAX
}

proof fn lemma_seats_nonneg(s: Seq<Bond>, pool: Map<u64, Candidate>, candidate: u64, own: u128, delegated: u128)
    ensures
        seats_stake(s, pool, candidate, own, delegated).0 >= 0,
        seats_stake(s, pool, candidate, own, delegated).1 >= 0,
    decreases s.len(),
{
    if s.len() > 0 {
        lemma_seats_nonneg(s.drop_last(), pool, candidate, own, delegated);
    }
}

proof fn lemma_seats_concat(
    a: Seq<Bond>,
    b: Seq<Bond>,
    pool: Map<u64, Candidate>,
    candidate: u64,
    own: u128,
    delegated: u128,
)
    ensures
        seats_stake(a + b, pool, candidate, own, delegated).0 == seats_stake(
            a,
            pool,
            candidate,
            own,
            delegated,
        ).0 + seats_stake(b, pool, candidate, own, delegated).0,
        seats_stake(a + b, pool, candidate, own, delegated).1 == seats_stake(
            a,
            pool,
            candidate,
            own,
            delegated,
        ).1 + seats_stake(b, pool, candidate, own, delegated).1,
    decreases b.len(),
{
    if b.len() == 0 {
        assert(a + b =~= a);
    } else {
        lemma_seats_concat(a, b.drop_last(), pool, candidate, own, delegated);
        assert((a + b).drop_last() =~= a + b.drop_last());
        assert((a + b).last() == b.last());
    }
}

proof fn lemma_seats_single(b: Bond, pool: Map<u64, Candidate>, candidate: u64, own: u128, delegated: u128)
    ensures
        seats_stake(seq![b], pool, candidate, own, delegated) == seat_stake(
            b,
            pool,
            candidate,
            own,
            delegated,
        ),
{
    assert(seq![b].drop_last() =~= Seq::<Bond>::empty());
    assert(seats_stake(Seq::<Bond>::empty(), pool, candidate, own, delegated) == (0int, 0int));
    assert(seq![b].last() == b);
}

/// Where `candidate` holds no bond, the stake given for it counts for
/// nothing.
proof fn lemma_seats_without_candidate(
    s: Seq<Bond>,
    pool: Map<u64, Candidate>,
    candidate: u64,
    own1: u128,
    delegated1: u128,
    own2: u128,
    delegated2: u128,
)
    requires
        forall|i: int| 0 <= i < s.len() ==> #[trigger] s[i].owner != candidate,
    ensures
        seats_stake(s, pool, candidate, own1, delegated1) == seats_stake(
            s,
            pool,
            candidate,
            own2,
            delegated2,
        ),
    decreases s.len(),
{
    if s.len() > 0 {
        let t = s.drop_last();
        assert forall|i: int| 0 <= i < t.len() implies #[trigger] t[i].owner != candidate by {
            assert(t[i] == s[i]);
        }
        lemma_seats_without_candidate(t, pool, candidate, own1, delegated1, own2, delegated2);
        assert(s.last() == s[s.len() - 1]);
    }
}

/// The first `m` bonds count what the first `m - 1` count and the bond at
/// `m - 1`.
proof fn lemma_seats_take_step(
    r: Seq<Bond>,
    m: int,
    pool: Map<u64, Candidate>,
    candidate: u64,
    own: u128,
    delegated: u128,
)
    requires
        1 <= m <= r.len(),
    ensures
        seats_stake(r.take(m), pool, candidate, own, delegated).0 == seats_stake(
            r.take(m - 1),
            pool,
            candidate,
            own,
            delegated,
        ).0 + seat_stake(r[m - 1], pool, candidate, own, delegated).0,
        seats_stake(r.take(m), pool, candidate, own, delegated).1 == seats_stake(
            r.take(m - 1),
            pool,
            candidate,
            own,
            delegated,
        ).1 + seat_stake(r[m - 1], pool, candidate, own, delegated).1,
{
    assert(r.take(m).drop_last() =~= r.take(m - 1));
    assert(r.take(m).last() == r[m - 1]);
}

/// The first `m` bonds of `r` with `b` inserted at `i` count what the
/// first `m - 1` of `r` count and `b`, when `b` is among them, and what the
/// first `m` of `r` count otherwise.
proof fn lemma_seats_insert(
    r: Seq<Bond>,
    i: int,
    b: Bond,
    m: int,
    pool: Map<u64, Candidate>,
    candidate: u64,
    own: u128,
    delegated: u128,
)
    requires
        0 <= i <= r.len(),
        0 <= m <= r.len() + 1,
    ensures
        i < m ==> seats_stake(r.insert(i, b).take(m), pool, candidate, own, delegated).0
            == seats_stake(r.take(m - 1), pool, candidate, own, delegated).0 + seat_stake(
            b,
            pool,
            candidate,
            own,
            delegated,
        ).0,
        i < m ==> seats_stake(r.insert(i, b).take(m), pool, candidate, own, delegated).1
            == seats_stake(r.take(m - 1), pool, candidate, own, delegated).1 + seat_stake(
            b,
            pool,
            candidate,
            own,
            delegated,
        ).1,
        m <= i ==> seats_stake(r.insert(i, b).take(m), pool, candidate, own, delegated)
            == seats_stake(r.take(m), pool, candidate, own, delegated),
{
    if i < m {
        let x = r.take(i);
        let y = r.subrange(i, m - 1);
        assert(r.insert(i, b).take(m) =~= x + (seq![b] + y));
        assert(r.take(m - 1) =~= x + y);
        lemma_seats_concat(x, y, pool, candidate, own, delegated);
        lemma_seats_concat(seq![b], y, pool, candidate, own, delegated);
        lemma_seats_concat(x, seq![b] + y, pool, candidate, own, delegated);
        lemma_seats_single(b, pool, candidate, own, delegated);
    } else {
        assert(r.insert(i, b).take(m) =~= r.take(m));
    }
}

/// Where `r` holds no bond of `candidate`, its first `m` bonds count the
/// same whatever stake is given for `candidate`.
proof fn lemma_seats_take_free(
    r: Seq<Bond>,
    m: int,
    pool: Map<u64, Candidate>,
    candidate: u64,
    own1: u128,
    delegated1: u128,
    own2: u128,
    delegated2: u128,
)
    requires
        forall|x: int| 0 <= x < r.len() ==> #[trigger] r[x].owner != candidate,
        0 <= m <= r.len(),
    ensures
        seats_stake(r.take(m), pool, candidate, own1, delegated1) == seats_stake(
            r.take(m),
            pool,
            candidate,
            own2,
            delegated2,
        ),
        seats_stake(r.take(m), pool, candidate, own1, delegated1).0 >= 0,
        seats_stake(r.take(m), pool, candidate, own1, delegated1).1 >= 0,
{
    let t = r.take(m);
    assert forall|x: int| 0 <= x < t.len() implies #[trigger] t[x].owner != candidate by {
        assert(t[x] == r[x]);
    }
    lemma_seats_without_candidate(t, pool, candidate, own1, delegated1, own2, delegated2);
    lemma_seats_nonneg(t, pool, candidate, own1, delegated1);
}

/// The law below, for a candidate already among the top candidates.
proof fn lemma_follows_held(
    top: Seq<Bond>,
    bound: nat,
    collator_nums: u32,
    pool: Map<u64, Candidate>,
    total: TotalStake,
    candidate: u64,
    old_self: u128,
    old_delegations: u128,
    new_self: u128,
    new_delegations: u128,
)
    requires
        descending(top),
        top.len() <= bound,
        holds_owner(top, candidate),
        others_in_pool(top, pool, candidate),
        total_is_seats(total, top, collator_nums, pool, candidate, old_self, old_delegations),
        seats_fit(
            top_update(
                top,
                bound,
                collator_nums,
                pool,
                total,
                candidate,
                old_self,
                old_delegations,
                new_self,
                new_delegations,
            ).top,
            collator_nums,
            pool,
            candidate,
            new_self,
            new_delegations,
        ),
    ensures
        ({
            let u = top_update(
                top,
                bound,
                collator_nums,
                pool,
                total,
                candidate,
                old_self,
                old_delegations,
                new_self,
                new_delegations,
            );
            total_is_seats(u.total, u.top, collator_nums, pool, candidate, new_self, new_delegations)
        }),
{
    let n = collator_nums as int;
    let amount = sat_add(new_self, new_delegations);
    let stake = Bond { owner: candidate, amount };
    lemma_index_of(top, candidate);
    let i = index_of(top, candidate) as int;
    let r = top.remove(i);
    lemma_restaked(top, i, amount);
    lemma_removed_descending(top, i);
    lemma_index_of(r, candidate);
    assert forall|x: int| 0 <= x < r.len() implies #[trigger] r[x].owner != candidate by {
        if r[x].owner == candidate {
            assert(holds_owner(r, candidate));
        }
    }
    lemma_position_of(r, stake);
    let q = position_of(r, stake) as int;
    let new_top = restaked(top, i, amount);
    assert(new_top == r.insert(q, stake));
    assert(index_of(new_top, candidate) == q);
    assert(top =~= r.insert(i, top[i]));
    let len = top.len() as int;
    let k = if n < len {
        n
    } else {
        len
    };
    assert(collator_seats(top, collator_nums) == top.take(k));
    assert(collator_seats(new_top, collator_nums) == new_top.take(k));
    lemma_seats_insert(r, i, top[i], k, pool, candidate, old_self, old_delegations);
    lemma_seats_insert(r, q, stake, k, pool, candidate, new_self, new_delegations);
    if k <= r.len() {
        lemma_seats_take_free(
            r,
            k,
            pool,
            candidate,
            old_self,
            old_delegations,
            new_self,
            new_delegations,
        );
    }
    if k >= 1 {
        lemma_seats_take_free(
            r,
            k - 1,
            pool,
            candidate,
            old_self,
            old_delegations,
            new_self,
            new_delegations,
        );
    }
    if i < n && q >= n {
        lemma_seats_take_step(r, n, pool, candidate, new_self, new_delegations);
        assert(new_top[n - 1] == r[n - 1]);
        if n - 1 < i {
            assert(r[n - 1] == top[n - 1]);
        } else {
            assert(r[n - 1] == top[n]);
        }
    }
    if i >= n && q < n {
        lemma_seats_take_step(r, n, pool, candidate, old_self, old_delegations);
        assert(new_top[n] == r[n - 1]);
    }
}

/// The law below, for a candidate that enters the top candidates.
proof fn lemma_follows_entered(
    top: Seq<Bond>,
    bound: nat,
    collator_nums: u32,
    pool: Map<u64, Candidate>,
    total: TotalStake,
    candidate: u64,
    old_self: u128,
    old_delegations: u128,
    new_self: u128,
    new_delegations: u128,
)
    requires
        descending(top),
        top.len() <= bound,
        !holds_owner(top, candidate),
        bound > 0,
        position_of(top, Bond { owner: candidate, amount: sat_add(new_self, new_delegations) })
            < bound,
        !fills_free_seat(
            top,
            bound,
            collator_nums,
            Bond { owner: candidate, amount: sat_add(new_self, new_delegations) },
        ),
        total_is_seats(total, top, collator_nums, pool, candidate, old_self, old_delegations),
        seats_fit(
            top_update(
                top,
                bound,
                collator_nums,
                pool,
                total,
                candidate,
                old_self,
                old_delegations,
                new_self,
                new_delegations,
            ).top,
            collator_nums,
            pool,
            candidate,
            new_self,
            new_delegations,
        ),
    ensures
        ({
            let u = top_update(
                top,
                bound,
                collator_nums,
                pool,
                total,
                candidate,
                old_self,
                old_delegations,
                new_self,
                new_delegations,
            );
            total_is_seats(u.total, u.top, collator_nums, pool, candidate, new_self, new_delegations)
        }),
{
    let n = collator_nums as int;
    let amount = sat_add(new_self, new_delegations);
    let stake = Bond { owner: candidate, amount };
    lemma_index_of(top, candidate);
    assert forall|x: int| 0 <= x < top.len() implies #[trigger] top[x].owner != candidate by {
        if top[x].owner == candidate {
            assert(holds_owner(top, candidate));
        }
    }
    lemma_position_of(top, stake);
    let p = position_of(top, stake) as int;
    let len = top.len() as int;
    let r = if top.len() >= bound {
        top.drop_last()
    } else {
        top
    };
    assert forall|x: int| 0 <= x < r.len() implies #[trigger] r[x].owner != candidate by {
        assert(r[x] == top[x]);
    }
    let new_top = r.insert(p, stake);
    assert(n <= r.len());
    assert(top.take(n) =~= r.take(n));
    assert(collator_seats(top, collator_nums) == top.take(n));
    assert(collator_seats(new_top, collator_nums) == new_top.take(n));
    lemma_seats_insert(r, p, stake, n, pool, candidate, new_self, new_delegations);
    lemma_seats_take_free(
        r,
        n,
        pool,
        candidate,
        old_self,
        old_delegations,
        new_self,
        new_delegations,
    );
    if p < n {
        lemma_seats_take_free(
            r,
            n - 1,
            pool,
            candidate,
            old_self,
            old_delegations,
            new_self,
            new_delegations,
        );
        lemma_seats_take_step(r, n, pool, candidate, old_self, old_delegations);
        assert(new_top[n] == r[n - 1]);
    }
}

/// The collators' total follows the collator seats: when it is the stake
/// that the first `collator_nums` top candidates count, with `candidate`
/// at its old stake, then after `update_top_candidates` it is the stake
/// that the new first `collator_nums` count, with `candidate` at its new
/// stake. The top candidates other than `candidate` are taken to be in the
/// pool. Left out are a candidate entering onto a seat while one is free
/// (or while the full set has no candidate beyond the seats), where the
/// update takes off the stake of one that stays a collator, and totals
/// that would saturate.
pub proof fn law_collators_total_follows_seats(
    top: Seq<Bond>,
    bound: nat,
    collator_nums: u32,
    pool: Map<u64, Candidate>,
    total: TotalStake,
    candidate: u64,
    old_self: u128,
    old_delegations: u128,
    new_self: u128,
    new_delegations: u128,
)
    requires
        descending(top),
        top.len() <= bound,
        others_in_pool(top, pool, candidate),
        !fills_free_seat(
            top,
            bound,
            collator_nums,
            Bond { owner: candidate, amount: sat_add(new_self, new_delegations) },
        ),
        total_is_seats(total, top, collator_nums, pool, candidate, old_self, old_delegations),
        seats_fit(
            top_update(
                top,
                bound,
                collator_nums,
                pool,
                total,
                candidate,
                old_self,
                old_delegations,
                new_self,
                new_delegations,
            ).top,
            collator_nums,
            pool,
            candidate,
            new_self,
            new_delegations,
        ),
    ensures
        ({
            let u = top_update(
                top,
                bound,
                collator_nums,
                pool,
                total,
                candidate,
                old_self,
                old_delegations,
                new_self,
                new_delegations,
            );
            total_is_seats(u.total, u.top, collator_nums, pool, candidate, new_self, new_delegations)
        }),
{
    let stake = Bond { owner: candidate, amount: sat_add(new_self, new_delegations) };
    if holds_owner(top, candidate) {
        lemma_follows_held(
            top,
            bound,
            collator_nums,
            pool,
            total,
            candidate,
            old_self,
            old_delegations,
            new_self,
            new_delegations,
        );
    } else if bound > 0 && position_of(top, stake) < bound {
        lemma_follows_entered(
            top,
            bound,
            collator_nums,
            pool,
            total,
            candidate,
            old_self,
            old_delegations,
            new_self,
            new_delegations,
        );
    } else {
        lemma_index_of(top, candidate);
        assert forall|x: int| 0 <= x < top.len() implies #[trigger] top[x].owner != candidate by {
            if top[x].owner == candidate {
                assert(holds_owner(top, candidate));
            }
        }
        let k = if collator_nums < top.len() {
            collator_nums as int
        } else {
            top.len() as int
        };
        lemma_seats_take_free(
            top,
            k,
            pool,
            candidate,
            old_self,
            old_delegations,
            new_self,
            new_delegations,
        );
    }
}

} // verus!
