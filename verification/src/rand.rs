//! Deterministic random source: a seeded multiplicative linear-congruential
//! generator plus a choose-without-replacement sampling helper.  Every
//! operation is a pure function of the prior state, so a fixed seed and call
//! sequence reproduce identical outputs.

use vstd::prelude::*;
use vstd::arithmetic::div_mod::{lemma_add_mod_noop, lemma_mod_self_0, lemma_small_mod};
use vstd::wrapping::u64_specs;

verus! {

/// The multiplier of the linear-congruential step.
pub const LCG_MULTIPLIER: u64 = 0x6C078965;

/// One step of the linear-congruential recurrence, modulo 2^64.
pub open spec fn lcg_next(state: u64) -> u64 {
    ((state * LCG_MULTIPLIER + 1) % 0x1_0000_0000_0000_0000) as u64
}

/// The wrapping operations the generator executes compute exactly the
/// modular recurrence `lcg_next`.
proof fn lemma_lcg_step(state: u64)
    ensures
        u64_specs::wrapping_add(u64_specs::wrapping_mul(state, LCG_MULTIPLIER), 1) == lcg_next(
            state,
        ),
{
    let r: int = 0x1_0000_0000_0000_0000;
    let p: int = state * LCG_MULTIPLIER;
    let wm: int = u64_specs::wrapping_mul(state, LCG_MULTIPLIER) as int;
    assert(wm == p % r) by {
        vstd::arithmetic::mul::lemma_mul_nonnegative(state as int, LCG_MULTIPLIER as int);
        assert((p as nat % r as nat) as int == p % r);
    }
    lemma_add_mod_noop(p, 1, r);
    lemma_small_mod(1nat, r as nat);
    if wm + 1 == r {
        lemma_mod_self_0(r);
        lemma_small_mod((wm + 1 - r) as nat, r as nat);
    } else {
        lemma_small_mod((wm + 1) as nat, r as nat);
    }
}

/// Seeded pseudo-random generator.  The single field is the current state;
/// `next` advances it by one `lcg_next` step and returns the new state.
pub struct Rand(pub u64);

impl Rand {
    /// Construct a generator whose state is exactly the given seed.
    pub fn new_with_seed(seed: u64) -> (r: Self)
        ensures
            r.0 == seed,
    {
        Self(seed)
    }

    /// Advance the state by one linear-congruential step and return it.
    pub fn next(&mut self) -> (r: u64)
        ensures
            final(self).0 == lcg_next(old(self).0),
            r == final(self).0,
    {
        proof {
            lemma_lcg_step(self.0);
        }
        self.0 = self.0.wrapping_mul(LCG_MULTIPLIER).wrapping_add(1);
        self.0
    }

    /// Advance the state once and reduce the new state modulo
    /// `max_to_stay_below`, yielding a value in `[0, max_to_stay_below)`.
    pub fn next_max(&mut self, max_to_stay_below: usize) -> (r: usize)
        requires
            max_to_stay_below >= 1,
        ensures
            final(self).0 == lcg_next(old(self).0),
            r == lcg_next(old(self).0) as int % max_to_stay_below as int,
            r < max_to_stay_below,
    {
        let max = max_to_stay_below as u64;
        let rand = self.next() % max;
        rand as usize
    }
}

/// What one choose-without-replacement run picks: starting from `state`, draw
/// `n` items, each time advancing the generator once, picking the entry of
/// `pool` selected by the new state modulo the remaining pool size, and
/// removing that entry from the pool.  Yields the picked items in draw order
/// together with the final generator state.
pub open spec fn choose_rec<T>(items: Seq<T>, pool: Seq<usize>, state: u64, n: nat) -> (Seq<
    T,
>, u64)
    decreases n,
{
    if n == 0 || pool.len() == 0 {
        (Seq::empty(), state)
    } else {
        let next_state = lcg_next(state);
        let j = next_state as int % pool.len() as int;
        let picked = items[pool[j] as int];
        let rest = choose_rec(items, pool.remove(j), next_state, (n - 1) as nat);
        (seq![picked] + rest.0, rest.1)
    }
}

/// The pool every draw starts from: all indices of a sequence of the given
/// length, in order.
pub open spec fn full_pool(len: nat) -> Seq<usize> {
    Seq::new(len, |i: int| i as usize)
}

/// Every item a draw picks comes from an index of the pool.
proof fn lemma_choose_rec_membership<T>(items: Seq<T>, pool: Seq<usize>, state: u64, n: nat)
    ensures
        ({
            let r = choose_rec(items, pool, state, n).0;
            forall|k: int|
                0 <= k < r.len() ==> exists|p: int|
                    0 <= p < pool.len() && #[trigger] r[k] == items[pool[p] as int]
        }),
    decreases n,
{
    if n > 0 && pool.len() > 0 {
        let next_state = lcg_next(state);
        let j = next_state as int % pool.len() as int;
        let sub = pool.remove(j);
        lemma_choose_rec_membership(items, sub, next_state, (n - 1) as nat);
        let r = choose_rec(items, pool, state, n).0;
        let rest = choose_rec(items, sub, next_state, (n - 1) as nat).0;
        assert forall|k: int| 0 <= k < r.len() implies exists|p: int|
            0 <= p < pool.len() && #[trigger] r[k] == items[pool[p] as int] by {
            if k == 0 {
                assert(r[k] == items[pool[j] as int]);
            } else {
                assert(r[k] == rest[k - 1]);
                let q = choose|q: int|
                    0 <= q < sub.len() && rest[k - 1] == items[sub[q] as int];
                if q < j {
                    assert(sub[q] == pool[q]);
                } else {
                    assert(sub[q] == pool[q + 1]);
                }
            }
        }
    }
}

/// Drawing without replacement from pairwise-distinct items yields pairwise
/// distinct picks: each draw removes its index from the remaining pool.
pub proof fn lemma_choose_rec_distinct<T>(items: Seq<T>, pool: Seq<usize>, state: u64, n: nat)
    requires
        forall|i: int, j: int| 0 <= i < j < items.len() ==> items[i] != items[j],
        forall|i: int| 0 <= i < pool.len() ==> (#[trigger] pool[i]) < items.len(),
        forall|i: int, j: int| 0 <= i < j < pool.len() ==> pool[i] != pool[j],
    ensures
        ({
            let r = choose_rec(items, pool, state, n).0;
            forall|i: int, j: int| 0 <= i < j < r.len() ==> r[i] != r[j]
        }),
    decreases n,
{
    if n > 0 && pool.len() > 0 {
        let next_state = lcg_next(state);
        let jj = next_state as int % pool.len() as int;
        let sub = pool.remove(jj);
        assert forall|i: int| 0 <= i < sub.len() implies (#[trigger] sub[i]) < items.len() by {
            if i < jj {
                assert(sub[i] == pool[i]);
            } else {
                assert(sub[i] == pool[i + 1]);
            }
        }
        assert forall|i: int, j: int| 0 <= i < j < sub.len() implies sub[i] != sub[j] by {
            if i < jj {
                assert(sub[i] == pool[i]);
            } else {
                assert(sub[i] == pool[i + 1]);
            }
            if j < jj {
                assert(sub[j] == pool[j]);
            } else {
                assert(sub[j] == pool[j + 1]);
            }
        }
        lemma_choose_rec_distinct(items, sub, next_state, (n - 1) as nat);
        lemma_choose_rec_membership(items, sub, next_state, (n - 1) as nat);
        let picked = items[pool[jj] as int];
        let rest = choose_rec(items, sub, next_state, (n - 1) as nat).0;
        let r = choose_rec(items, pool, state, n).0;
        assert forall|i: int, j: int| 0 <= i < j < r.len() implies r[i] != r[j] by {
            if i == 0 {
                assert(r[j] == rest[j - 1]);
                let q = choose|q: int|
                    0 <= q < sub.len() && rest[j - 1] == items[sub[q] as int];
                if q < jj {
                    assert(sub[q] == pool[q]);
                    assert(pool[q] != pool[jj]);
                } else {
                    assert(sub[q] == pool[q + 1]);
                    assert(pool[q + 1] != pool[jj]);
                }
                assert(items[pool[jj] as int] != items[sub[q] as int]);
            } else {
                assert(r[i] == rest[i - 1]);
                assert(r[j] == rest[j - 1]);
            }
        }
    }
}

/// A full draw from pairwise-distinct items, as `choose_multiple` performs
/// it, picks pairwise-distinct items: no index is drawn twice.
pub proof fn lemma_choose_multiple_distinct<T>(items: Seq<T>, state: u64, n: nat)
    requires
        items.len() <= usize::MAX,
        forall|i: int, j: int| 0 <= i < j < items.len() ==> items[i] != items[j],
    ensures
        ({
            let r = choose_rec(items, full_pool(items.len()), state, n).0;
            forall|i: int, j: int| 0 <= i < j < r.len() ==> r[i] != r[j]
        }),
{
    let pool = full_pool(items.len());
    assert forall|i: int, j: int| 0 <= i < j < pool.len() implies pool[i] != pool[j] by {
        assert(pool[i] == i as usize && pool[j] == j as usize);
    }
    lemma_choose_rec_distinct(items, pool, state, n);
}

/// Draw `n` items from `items` without replacement, driven by `rng`:
/// repeatedly pick a random entry of the remaining index pool and remove it.
pub fn choose_multiple<T: Copy>(items: &Vec<T>, rng: &mut Rand, n: usize) -> (chosen: Vec<T>)
    requires
        n <= items@.len(),
    ensures
        chosen@ == choose_rec(items@, full_pool(items@.len()), old(rng).0, n as nat).0,
        final(rng).0 == choose_rec(items@, full_pool(items@.len()), old(rng).0, n as nat).1,
        chosen@.len() == n,
        forall|i: int| 0 <= i < n ==> items@.contains(#[trigger] chosen@[i]),
{
    let ghost s0: u64 = rng.0;
    let ghost target: (Seq<T>, u64) = choose_rec(items@, full_pool(items@.len()), s0, n as nat);

    let mut indices: Vec<usize> = Vec::new();
    let mut k: usize = 0;
    while k < items.len()
        invariant
            k <= items@.len(),
            indices@.len() == k,
            forall|i: int| 0 <= i < k ==> indices@[i] == i,
        decreases items@.len() - k,
    {
        indices.push(k);
        k = k + 1;
    }
    proof {
        assert(indices@ =~= full_pool(items@.len()));
    }

    let mut chosen: Vec<T> = Vec::new();
    let mut c: usize = 0;
    while c < n
        invariant
            c <= n,
            n <= items@.len(),
            chosen@.len() == c,
            indices@.len() == items@.len() - c,
            forall|i: int| 0 <= i < indices@.len() ==> indices@[i] < items@.len(),
            forall|i: int| 0 <= i < c ==> items@.contains(#[trigger] chosen@[i]),
            target == choose_rec(items@, full_pool(items@.len()), s0, n as nat),
            chosen@ + choose_rec(items@, indices@, rng.0, (n - c) as nat).0 == target.0,
            choose_rec(items@, indices@, rng.0, (n - c) as nat).1 == target.1,
        decreases n - c,
    {
        let ghost pool_before = indices@;
        let ghost state_before = rng.0;
        let ghost chosen_before = chosen@;
        let idx_pos = rng.next_max(indices.len());
        let index = indices.remove(idx_pos);
        let item = items[index];
        chosen.push(item);
        proof {
            let rest = choose_rec(items@, pool_before, state_before, (n - c) as nat);
            assert(rest.0 == seq![item] + choose_rec(
                items@,
                pool_before.remove(idx_pos as int),
                rng.0,
                (n - c - 1) as nat,
            ).0);
            assert(chosen@ =~= chosen_before + seq![item]);
            assert(chosen@ + choose_rec(items@, indices@, rng.0, (n - (c + 1)) as nat).0
                =~= target.0);
            assert(items@[index as int] == item);
            assert(items@.contains(item));
        }
        c = c + 1;
    }
    proof {
        assert(chosen@ + choose_rec(items@, indices@, rng.0, 0nat).0 =~= chosen@);
    }
    chosen
}

} // verus!
