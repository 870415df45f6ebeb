use vstd::prelude::*;
use crate::draw::{float_pick, scaled_draw};

verus! {

pub const MODULUS: u64 = 2147483647;
pub const MULTIPLIER: u64 = 16807;
pub const MAX_FLOAT: u64 = 2147483646;

/// The seed that a start value `v` gives: `v` modulo 2^31 - 1, with 0
/// replaced by 2^31 - 2.
pub open spec fn seed_from(v: u64) -> u64 {
    if v % MODULUS == 0 {
        MAX_FLOAT
    } else {
        v % MODULUS
    }
}

/// One step of the Park-Miller generator.
pub open spec fn lcg(s: u64) -> u64 {
    ((MULTIPLIER * s) % (MODULUS as int)) as u64
}

/// `n` steps of the generator.
pub open spec fn lcg_iter(s: u64, n: nat) -> u64
    decreases n,
{
    if n == 0 {
        s
    } else {
        lcg_iter(lcg(s), (n - 1) as nat)
    }
}

/// `a` with the items at `i` and `j` exchanged.
pub open spec fn swap_seq<T>(a: Seq<T>, i: int, j: int) -> Seq<T> {
    if 0 <= i < a.len() && 0 <= j < a.len() {
        a.update(i, a[j]).update(j, a[i])
    } else {
        a
    }
}

pub proof fn lemma_swap_seq_len<T>(a: Seq<T>, i: int, j: int)
    ensures
        swap_seq(a, i, j).len() == a.len(),
{
}

/// The Fisher-Yates pass over positions `i` down to 1, drawing from the
/// generator that stands at `s`.
pub open spec fn shuffle_from<T>(a: Seq<T>, s: u64, i: int) -> Seq<T>
    decreases i,
{
    if i < 1 {
        a
    } else {
        let s1 = lcg(s);
        shuffle_from(swap_seq(a, i, float_pick(s1, i)), s1, i - 1)
    }
}

pub proof fn lemma_shuffle_from_len<T>(a: Seq<T>, s: u64, i: int)
    requires
        i < a.len(),
    ensures
        shuffle_from(a, s, i).len() == a.len(),
    decreases i,
{
    if i >= 1 {
        lemma_shuffle_from_len(swap_seq(a, i, float_pick(lcg(s), i)), lcg(s), i - 1);
    }
}

/// A seed no draw of which is 0 and whose next step does not overflow.
pub open spec fn seed_ok(s: u64) -> bool {
    s % MODULUS != 0 && MULTIPLIER * s <= u64::MAX
}

/// From a valid seed the generator steps to a valid seed, never to 0.
pub proof fn lemma_lcg_nonzero(s: u64)
    requires
        seed_ok(s),
    ensures
        lcg(s) % MODULUS != 0,
        0 < lcg(s) < MODULUS,
        seed_ok(lcg(s)),
{
    // MODULUS is prime and does not divide MULTIPLIER.
    let m: int = 2147483647;
    let si = s as int;
    let r: int = si % m;
    vstd::arithmetic::div_mod::lemma_mul_mod_noop_right(16807, si, m);
    assert((16807 * si) % m == (16807 * r) % m);
    lemma_mul_not_div(r);
}

proof fn lemma_mul_not_div(r: int)
    requires
        0 < r < 2147483647,
    ensures
        (16807 * r) % 2147483647 != 0,
{
    // 16807 = 7^5 and 2147483647 is a prime that 7 does not divide, so a
    // product with r not a multiple of 2147483647 is not one either. We
    // argue via the inverse of 16807: 16807 * 1407677000 = 1 (mod 2^31 - 1).
    let q = (16807 * r) / 2147483647;
    if (16807 * r) % 2147483647 == 0 {
        assert(16807 * r == 2147483647 * q) by (nonlinear_arith)
            requires (16807 * r) % 2147483647 == 0, q == (16807 * r) / 2147483647;
        assert((1407677000 * (16807 * r)) % 2147483647 == r) by (nonlinear_arith)
            requires 0 < r < 2147483647;
        assert((1407677000 * (2147483647 * q)) % 2147483647 == 0) by (nonlinear_arith);
        assert(false);
    }
}

/// The piece generator: the Park-Miller "minimal standard" generator
/// (multiplier 16807, modulus 2^31 - 1) and a count of the draws made.
#[derive(Clone, Copy)]
pub struct RNG {
    pub seed: u64,
    pub index: usize,
}

/// Exchanges the items at `i` and `j`.
fn swap_items<T>(v: &mut Vec<T>, i: usize, j: usize)
    requires
        i < old(v).len(),
        j < old(v).len(),
    ensures
        final(v)@ == swap_seq(old(v)@, i as int, j as int),
{
    if i == j {
        assert(swap_seq(v@, i as int, j as int) =~= v@);
        return;
    }
    let ghost s = v@;
    let lo = if i < j { i } else { j };
    let hi = if i < j { j } else { i };
    let b = v.remove(hi);
    let a = v.remove(lo);
    v.insert(lo, b);
    v.insert(hi, a);
    assert(v@ =~= swap_seq(s, i as int, j as int));
}

impl RNG {
    /// A generator seeded with `seed` (see `seed_from`) that has made no draw.
    pub fn new(seed: u64) -> (r: RNG)
        ensures
            r.seed == seed_from(seed),
            r.index == 0,
            seed_ok(r.seed),
    {
        let mut rng = RNG { seed: seed % MODULUS, index: 0 };
        if rng.seed <= 0 {
            rng.seed = rng.seed + MAX_FLOAT;
        }
        rng
    }

    /// Advances the generator one step and returns the new seed.
    pub fn next(&mut self) -> (r: u64)
        requires
            old(self).index < usize::MAX,
            MULTIPLIER * old(self).seed <= u64::MAX,
        ensures
            r == lcg(old(self).seed),
            final(self).seed == r,
            final(self).index == old(self).index + 1,
    {
        self.index = self.index + 1;
        self.seed = (MULTIPLIER * self.seed) % MODULUS;
        self.seed
    }

    /// Shuffles `array` with a Fisher-Yates pass from the last position
    /// down, one draw per position.
    pub fn shuffle<T: Clone>(&mut self, array: Vec<T>) -> (r: Vec<T>)
        requires
            array.len() > 1 ==> seed_ok(old(self).seed),
            array.len() > 1 ==> old(self).index + array.len() - 1 <= usize::MAX,
        ensures
            array.len() <= 1 ==> r@ == array@ && *final(self) == *old(self),
            array.len() > 1 ==> r@ == shuffle_from(array@, old(self).seed, array.len() - 1),
            array.len() > 1 ==> final(self).seed == lcg_iter(old(self).seed, (array.len() - 1) as nat),
            array.len() > 1 ==> final(self).index == old(self).index + array.len() - 1,
            array.len() > 1 ==> seed_ok(final(self).seed),
            r@.to_multiset() == array@.to_multiset(),
            r.len() == array.len(),
    {
        let mut array = array;
        if array.len() == 0 {
            return array;
        }
        let ghost orig = array@;
        let ghost s0 = self.seed;
        let ghost idx0 = self.index;
        let n = array.len();
        let mut i = n - 1;
        while i >= 1
            invariant
                n == array.len(),
                n >= 1,
                i < n,
                n > 1 ==> seed_ok(self.seed),
                n > 1 ==> idx0 + n - 1 <= usize::MAX,
                self.index == idx0 + (n - 1 - i),
                self.seed == lcg_iter(s0, (n - 1 - i) as nat),
                shuffle_from(array@, self.seed, i as int) == shuffle_from(orig, s0, n - 1),
                array.len() == orig.len(),
                array@.to_multiset() == orig.to_multiset(),
            decreases i,
        {
            let ghost sprev = self.seed;
            proof {
                lemma_lcg_nonzero(self.seed);
            }
            let s = self.next();
            let r = scaled_draw(s, i);
            proof {
                lemma_lcg_iter_step(s0, (n - 1 - i) as nat);
                lemma_swap_multiset(array@, i as int, r as int);
            }
            swap_items(&mut array, i, r);
            i = i - 1;
        }
        array
    }

    /// Reseeds the generator (see `seed_from`); the draw count is kept.
    pub fn set_seed(&mut self, value: u64)
        ensures
            final(self).seed == seed_from(value),
            final(self).index == old(self).index,
    {
        self.seed = value % MODULUS;
        if self.seed <= 0 {
            self.seed = self.seed + MAX_FLOAT;
        }
    }
}

proof fn lemma_lcg_iter_step(s: u64, n: nat)
    ensures
        lcg_iter(s, n + 1) == lcg(lcg_iter(s, n)),
    decreases n,
{
    if n > 0 {
        lemma_lcg_iter_step(lcg(s), (n - 1) as nat);
        assert(lcg_iter(s, n) == lcg_iter(lcg(s), (n - 1) as nat));
        assert(lcg_iter(s, n + 1) == lcg_iter(lcg(s), n));
    } else {
        assert(lcg_iter(s, 1) == lcg_iter(lcg(s), 0));
    }
}

pub proof fn lemma_swap_multiset<T>(a: Seq<T>, i: int, j: int)
    requires
        0 <= i < a.len(),
        0 <= j < a.len(),
    ensures
        swap_seq(a, i, j).to_multiset() == a.to_multiset(),
{
    broadcast use vstd::multiset::group_multiset_axioms;
    broadcast use vstd::seq_lib::to_multiset_contains;
    vstd::seq_lib::to_multiset_update(a, i, a[j]);
    vstd::seq_lib::to_multiset_update(a.update(i, a[j]), j, a[i]);
    assert(a.contains(a[i]));
    assert(a.update(i, a[j])[j] == a[j]);
    assert(swap_seq(a, i, j).to_multiset() =~= a.to_multiset());
}

} // verus!
